//! The stream viewer's state and how it answers what the stream delivers:
//! connection status, the received-bytes counter, the raw-data window shown
//! as a hex dump, the connection log, and the RTCM3 message log with its
//! per-type counts.
use vstd::prelude::*;
use std::collections::BTreeMap;
use crate::log::RtcmMessageLog;
use crate::hexdump::{format_hex_dump, spec_hex_dump};
use crate::text::{spec_dec, push_dec, push_str, push_char};

verus! {

broadcast use vstd::laws_cmp::group_laws_cmp;

/// Raw bytes kept for the hex dump (the newest ones).
pub const MAX_RAW: usize = 16384;

/// Decoded messages kept in the message log (the newest ones).
pub const MAX_MESSAGES: usize = 500;

/// Which screen is shown.
#[derive(Clone, Copy, Debug, PartialEq, Eq, Structural)]
pub enum Screen {
    Main,
    Rtcm3Inspector,
}

/// State of the connection to the stream.
#[derive(Clone, Debug)]
pub enum ConnectionStatus {
    Disconnected,
    Connecting,
    Connected,
    Error(String),
}

/// What the stream reader reports to the viewer.
pub enum ViewerEvent {
    /// The connection was established.
    Connected,
    /// Raw bytes were read.
    Data(Vec<u8>),
    /// A message was decoded (as its log entry).
    Message(RtcmMessageLog),
    /// The connection failed or reading failed.
    Error(String),
    /// The remote end closed the connection, or the reader stopped.
    Disconnected,
}

/// Whether the viewer keeps listening to the stream after an event.
#[derive(Clone, Copy, Debug, PartialEq, Eq, Structural)]
pub enum Flow {
    Continue,
    Stop,
}

/// Colour in which the connection status is shown.
#[derive(Clone, Copy, Debug, PartialEq, Eq, Structural)]
pub enum StatusColor {
    Gray,
    Yellow,
    Green,
    Red,
}

/// The viewer's state.
pub struct ViewerState {
    pub host: String,
    pub port: String,
    pub connection_status: ConnectionStatus,
    pub received_bytes: usize,
    pub received_data: Vec<u8>,
    pub log_messages: Vec<String>,
    pub current_screen: Screen,
    pub rtcm_messages: Vec<RtcmMessageLog>,
    pub msg_type_counts: BTreeMap<i32, u32>,
}

/// The newest `n` items of `s` (all of them when there are fewer).
pub open spec fn keep_last<T>(s: Seq<T>, n: nat) -> Seq<T> {
    if s.len() > n {
        s.skip(s.len() - n)
    } else {
        s
    }
}

/// How often messages of type `t` were counted.
pub open spec fn count_of(m: Map<i32, u32>, t: i32) -> nat {
    if m.contains_key(t) {
        m[t] as nat
    } else {
        0
    }
}

/// The counts after one more message of type `t`.
pub open spec fn bump(m: Map<i32, u32>, t: i32) -> Map<i32, u32> {
    m.insert(t, (count_of(m, t) + 1) as u32)
}

/// The texts of a list of strings.
pub open spec fn texts(v: Seq<String>) -> Seq<Seq<char>> {
    v.map_values(|s: String| s@)
}

pub open spec fn connected_text() -> Seq<char> {
    seq!['C', 'o', 'n', 'n', 'e', 'c', 't', 'e', 'd', '.']
}

pub open spec fn error_prefix() -> Seq<char> {
    seq!['E', 'r', 'r', 'o', 'r', ':', ' ']
}

pub open spec fn remote_disconnected_text() -> Seq<char> {
    seq![
        'R',
        'e',
        'm',
        'o',
        't',
        'e',
        ' ',
        'd',
        'i',
        's',
        'c',
        'o',
        'n',
        'n',
        'e',
        'c',
        't',
        'e',
        'd',
        '.',
    ]
}

pub open spec fn disconnected_text() -> Seq<char> {
    seq!['D', 'i', 's', 'c', 'o', 'n', 'n', 'e', 'c', 't', 'e', 'd', '.']
}

pub open spec fn connecting_to_prefix() -> Seq<char> {
    seq!['C', 'o', 'n', 'n', 'e', 'c', 't', 'i', 'n', 'g', ' ', 't', 'o', ' ']
}

/// Keeping the newest `n` items after each addition keeps exactly the newest
/// `n` items of everything added: trimming before appending changes nothing.
pub proof fn law_window_composition<T>(a: Seq<T>, b: Seq<T>, n: nat)
    ensures
        keep_last(keep_last(a, n) + b, n) == keep_last(a + b, n),
{
    let k = keep_last(a, n);
    if a.len() > n {
        assert(k.len() == n);
        let lhs = keep_last(k + b, n);
        let rhs = keep_last(a + b, n);
        assert((k + b).len() > n || (k + b).len() == n);
        assert(lhs =~= rhs);
    } else {
        assert(k == a);
    }
}

/// The raw-data window after the chunks `chunks` arrived, one `Data` event
/// each, starting from `window`.
pub open spec fn window_after(window: Seq<u8>, chunks: Seq<Seq<u8>>) -> Seq<u8>
    decreases chunks.len(),
{
    if chunks.len() == 0 {
        window
    } else {
        keep_last(window_after(window, chunks.drop_last()) + chunks.last(), MAX_RAW as nat)
    }
}

/// The received-bytes counter after the chunks `chunks` arrived.
pub open spec fn bytes_after(bytes: int, chunks: Seq<Seq<u8>>) -> int
    decreases chunks.len(),
{
    if chunks.len() == 0 {
        bytes
    } else {
        bytes_after(bytes, chunks.drop_last()) + chunks.last().len()
    }
}

/// However the stream is cut into chunks, the hex dump holds the newest
/// `MAX_RAW` bytes of all that arrived, and the counter grows by the number of
/// bytes that arrived.
pub proof fn law_stream_window(window: Seq<u8>, bytes: int, chunks: Seq<Seq<u8>>)
    requires
        window.len() <= MAX_RAW,
    ensures
        window_after(window, chunks) == keep_last(window + chunks.flatten(), MAX_RAW as nat),
        bytes_after(bytes, chunks) == bytes + chunks.flatten().len(),
    decreases chunks.len(),
{
    if chunks.len() == 0 {
        assert(window + chunks.flatten() =~= window);
    } else {
        let init = chunks.drop_last();
        law_stream_window(window, bytes, init);
        assert(init.push(chunks.last()) =~= chunks);
        init.lemma_flatten_push(chunks.last());
        law_window_composition(window + init.flatten(), chunks.last(), MAX_RAW as nat);
        assert(window + init.flatten() + chunks.last() =~= window + chunks.flatten());
    }
}

/// The message log after the entries `entries` arrived, one `Message` event
/// each, starting from `log`.
pub open spec fn log_after<T>(log: Seq<T>, entries: Seq<T>) -> Seq<T>
    decreases entries.len(),
{
    if entries.len() == 0 {
        log
    } else {
        keep_last(log_after(log, entries.drop_last()).push(entries.last()), MAX_MESSAGES as nat)
    }
}

/// The message log always holds the newest `MAX_MESSAGES` entries of all that
/// arrived, in the order they arrived.
pub proof fn law_message_log<T>(log: Seq<T>, entries: Seq<T>)
    requires
        log.len() <= MAX_MESSAGES,
    ensures
        log_after(log, entries) == keep_last(log + entries, MAX_MESSAGES as nat),
    decreases entries.len(),
{
    if entries.len() == 0 {
        assert(log + entries =~= log);
    } else {
        let init = entries.drop_last();
        law_message_log(log, init);
        let x = entries.last();
        law_window_composition(log + init, seq![x], MAX_MESSAGES as nat);
        assert(keep_last(log + init, MAX_MESSAGES as nat).push(x) =~= keep_last(
            log + init,
            MAX_MESSAGES as nat,
        ) + seq![x]);
        assert(log + init + seq![x] =~= log + entries);
    }
}

/// How many of `types` equal `t`.
pub open spec fn occurrences(types: Seq<i32>, t: i32) -> nat
    decreases types.len(),
{
    if types.len() == 0 {
        0
    } else {
        occurrences(types.drop_last(), t) + (if types.last() == t {
            1nat
        } else {
            0nat
        })
    }
}

/// The per-type counts after messages of the types `types` arrived.
pub open spec fn counts_after(m: Map<i32, u32>, types: Seq<i32>) -> Map<i32, u32>
    decreases types.len(),
{
    if types.len() == 0 {
        m
    } else {
        bump(counts_after(m, types.drop_last()), types.last())
    }
}

/// Every arriving message is counted under its type, including those that
/// have since left the message log: each count grows by the number of
/// messages of its type (as long as no count passes `u32::MAX`).
pub proof fn law_type_counts(m: Map<i32, u32>, types: Seq<i32>, t: i32)
    requires
        forall|u: i32| count_of(m, u) + occurrences(types, u) <= u32::MAX,
    ensures
        count_of(counts_after(m, types), t) == count_of(m, t) + occurrences(types, t),
    decreases types.len(),
{
    if types.len() > 0 {
        let init = types.drop_last();
        let last = types.last();
        assert forall|u: i32| count_of(m, u) + occurrences(init, u) <= u32::MAX by {
            assert(count_of(m, u) + occurrences(types, u) <= u32::MAX);
        }
        law_type_counts(m, init, t);
        law_type_counts(m, init, last);
        assert(count_of(m, last) + occurrences(types, last) <= u32::MAX);
    }
}

/// The message types of log entries, in order.
pub open spec fn log_types(msgs: Seq<RtcmMessageLog>) -> Seq<i32> {
    msgs.map_values(|m: RtcmMessageLog| m.msg_type)
}

/// No type has more entries in the log than its count says.
pub open spec fn counts_cover_log(m: Map<i32, u32>, msgs: Seq<RtcmMessageLog>) -> bool {
    forall|t: i32| #[trigger] occurrences(log_types(msgs), t) <= count_of(m, t)
}

proof fn lemma_occurrences_empty(s: Seq<i32>, t: i32)
    requires
        s.len() == 0,
    ensures
        occurrences(s, t) == 0,
{
}

proof fn lemma_occurrences_push(s: Seq<i32>, x: i32, t: i32)
    ensures
        occurrences(s.push(x), t) == occurrences(s, t) + (if x == t {
            1nat
        } else {
            0nat
        }),
{
    assert(s.push(x).drop_last() =~= s);
}

proof fn lemma_occurrences_skip(s: Seq<i32>, k: int, t: i32)
    requires
        0 <= k <= s.len(),
    ensures
        occurrences(s.skip(k), t) <= occurrences(s, t),
    decreases s.len(),
{
    if k == s.len() {
        lemma_occurrences_empty(s.skip(k), t);
    } else {
        lemma_occurrences_skip(s.drop_last(), k, t);
        assert(s.skip(k).drop_last() =~= s.drop_last().skip(k));
        assert(s.skip(k).last() == s.last());
    }
}

proof fn lemma_occurrences_positive(s: Seq<i32>, i: int)
    requires
        0 <= i < s.len(),
    ensures
        occurrences(s, s[i]) >= 1,
    decreases s.len(),
{
    if i < s.len() - 1 {
        lemma_occurrences_positive(s.drop_last(), i);
    }
}

proof fn lemma_message_keeps_cover(m: Map<i32, u32>, msgs: Seq<RtcmMessageLog>, log: RtcmMessageLog)
    requires
        counts_cover_log(m, msgs),
        count_of(m, log.msg_type) < u32::MAX,
    ensures
        counts_cover_log(
            bump(m, log.msg_type),
            keep_last(msgs.push(log), MAX_MESSAGES as nat),
        ),
{
    let pushed = msgs.push(log);
    let kept = keep_last(pushed, MAX_MESSAGES as nat);
    assert(log_types(pushed) =~= log_types(msgs).push(log.msg_type));
    assert forall|t: i32| #[trigger] occurrences(log_types(kept), t) <= count_of(
        bump(m, log.msg_type),
        t,
    ) by {
        lemma_occurrences_push(log_types(msgs), log.msg_type, t);
        assert(occurrences(log_types(msgs), t) <= count_of(m, t));
        if pushed.len() > MAX_MESSAGES {
            let k = pushed.len() - MAX_MESSAGES;
            assert(log_types(kept) =~= log_types(pushed).skip(k));
            lemma_occurrences_skip(log_types(pushed), k, t);
        }
    }
}

/// Σ of the counts of `keys`.
pub open spec fn sum_counts(m: Map<i32, u32>, keys: Seq<i32>) -> nat
    decreases keys.len(),
{
    if keys.len() == 0 {
        0
    } else {
        sum_counts(m, keys.drop_last()) + count_of(m, keys.last())
    }
}

/// Σ of the occurrences in `s` of `keys`.
pub open spec fn sum_occurrences(s: Seq<i32>, keys: Seq<i32>) -> nat
    decreases keys.len(),
{
    if keys.len() == 0 {
        0
    } else {
        sum_occurrences(s, keys.drop_last()) + occurrences(s, keys.last())
    }
}

proof fn lemma_sum_counts_bound(m: Map<i32, u32>, s: Seq<i32>, keys: Seq<i32>)
    requires
        forall|t: i32| #[trigger] occurrences(s, t) <= count_of(m, t),
    ensures
        sum_occurrences(s, keys) <= sum_counts(m, keys),
    decreases keys.len(),
{
    if keys.len() > 0 {
        lemma_sum_counts_bound(m, s, keys.drop_last());
        assert(occurrences(s, keys.last()) <= count_of(m, keys.last()));
    }
}

proof fn lemma_sum_occurrences_push(s: Seq<i32>, x: i32, keys: Seq<i32>)
    requires
        keys.no_duplicates(),
    ensures
        sum_occurrences(s.push(x), keys) == sum_occurrences(s, keys) + (if keys.contains(x) {
            1nat
        } else {
            0nat
        }),
    decreases keys.len(),
{
    if keys.len() > 0 {
        let init = keys.drop_last();
        assert(init.no_duplicates());
        lemma_sum_occurrences_push(s, x, init);
        lemma_occurrences_push(s, x, keys.last());
        if keys.last() == x {
            assert(!init.contains(x)) by {
                if init.contains(x) {
                    let k = choose|k: int| 0 <= k < init.len() && init[k] == x;
                    assert(keys[k] == keys[keys.len() - 1]);
                }
            }
            assert(keys.contains(x)) by {
                assert(keys[keys.len() - 1] == x);
            }
        } else {
            assert(keys.contains(x) == init.contains(x)) by {
                if keys.contains(x) {
                    let k = choose|k: int| 0 <= k < keys.len() && keys[k] == x;
                    assert(init[k] == x);
                }
                if init.contains(x) {
                    let k = choose|k: int| 0 <= k < init.len() && init[k] == x;
                    assert(keys[k] == x);
                }
            }
        }
    }
}

proof fn lemma_sum_occurrences_len(s: Seq<i32>, keys: Seq<i32>)
    requires
        keys.no_duplicates(),
        forall|i: int| 0 <= i < s.len() ==> keys.contains(#[trigger] s[i]),
    ensures
        sum_occurrences(s, keys) == s.len(),
    decreases s.len(),
{
    if s.len() == 0 {
        lemma_sum_occurrences_empty(s, keys);
    } else {
        let init = s.drop_last();
        assert forall|i: int| 0 <= i < init.len() implies keys.contains(#[trigger] init[i]) by {
            assert(init[i] == s[i]);
        }
        lemma_sum_occurrences_len(init, keys);
        assert(init.push(s.last()) =~= s);
        assert(keys.contains(s[s.len() - 1]));
        lemma_sum_occurrences_push(init, s.last(), keys);
    }
}

proof fn lemma_sum_occurrences_empty(s: Seq<i32>, keys: Seq<i32>)
    requires
        s.len() == 0,
    ensures
        sum_occurrences(s, keys) == 0,
    decreases keys.len(),
{
    if keys.len() > 0 {
        lemma_sum_occurrences_empty(s, keys.drop_last());
        lemma_occurrences_empty(s, keys.last());
    }
}

/// In every well-formed state, every logged message's type has been counted
/// at least once, and the counts of any list of distinct types that includes
/// every logged type add up to at least the number of log entries (so, in
/// particular, all the counts together add up to at least that number).
pub proof fn law_log_is_counted(st: &ViewerState, keys: Seq<i32>)
    requires
        st.wf(),
        keys.no_duplicates(),
        forall|i: int|
            0 <= i < st.rtcm_messages@.len() ==> keys.contains(
                #[trigger] st.rtcm_messages@[i].msg_type,
            ),
    ensures
        forall|i: int|
            0 <= i < st.rtcm_messages@.len() ==> count_of(
                st.msg_type_counts@,
                #[trigger] st.rtcm_messages@[i].msg_type,
            ) >= 1,
        sum_counts(st.msg_type_counts@, keys) >= st.rtcm_messages@.len(),
{
    let types = log_types(st.rtcm_messages@);
    assert forall|i: int|
        0 <= i < st.rtcm_messages@.len() implies count_of(
        st.msg_type_counts@,
        #[trigger] st.rtcm_messages@[i].msg_type,
    ) >= 1 by {
        lemma_occurrences_positive(types, i);
        assert(types[i] == st.rtcm_messages@[i].msg_type);
        assert(occurrences(types, types[i]) <= count_of(st.msg_type_counts@, types[i]));
    }
    assert forall|i: int| 0 <= i < types.len() implies keys.contains(#[trigger] types[i]) by {
        assert(types[i] == st.rtcm_messages@[i].msg_type);
    }
    lemma_sum_occurrences_len(types, keys);
    lemma_sum_counts_bound(st.msg_type_counts@, types, keys);
}

/// The colour of a connection status.
pub open spec fn spec_status_color(status: ConnectionStatus) -> StatusColor {
    match status {
        ConnectionStatus::Disconnected => StatusColor::Gray,
        ConnectionStatus::Connecting => StatusColor::Yellow,
        ConnectionStatus::Connected => StatusColor::Green,
        ConnectionStatus::Error(_) => StatusColor::Red,
    }
}

/// The text of a connection status.
pub open spec fn spec_status_text(status: ConnectionStatus) -> Seq<char> {
    match status {
        ConnectionStatus::Disconnected => seq![
            'D',
            'i',
            's',
            'c',
            'o',
            'n',
            'n',
            'e',
            'c',
            't',
            'e',
            'd',
        ],
        ConnectionStatus::Connecting => seq![
            'C',
            'o',
            'n',
            'n',
            'e',
            'c',
            't',
            'i',
            'n',
            'g',
            '.',
            '.',
            '.',
        ],
        ConnectionStatus::Connected => seq!['C', 'o', 'n', 'n', 'e', 'c', 't', 'e', 'd'],
        ConnectionStatus::Error(msg) => error_prefix() + msg@,
    }
}

/// The build label: description and hash, as `describe (hash)`.
pub fn version_label(describe: &str, hash: &str) -> (label: String)
    ensures
        label@ == describe@ + seq![' ', '('] + hash@ + seq![')'],
{
    let mut label = String::new();
    push_str(&mut label, describe);
    push_char(&mut label, ' ');
    push_char(&mut label, '(');
    push_str(&mut label, hash);
    push_char(&mut label, ')');
    assert(label@ =~= describe@ + seq![' ', '('] + hash@ + seq![')']);
    label
}

impl ViewerState {
    /// The state's invariant: the raw-data window and the message log are
    /// within their bounds.
    pub open spec fn wf(&self) -> bool {
        &&& self.received_data@.len() <= MAX_RAW
        &&& self.rtcm_messages@.len() <= MAX_MESSAGES
        &&& counts_cover_log(self.msg_type_counts@, self.rtcm_messages@)
    }

    /// The connection status, the host and port, the screen, and the
    /// connection log are those of `other`.
    pub open spec fn same_connection(&self, other: &Self) -> bool {
        &&& self.host@ == other.host@
        &&& self.port@ == other.port@
        &&& self.connection_status == other.connection_status
        &&& texts(self.log_messages@) == texts(other.log_messages@)
        &&& self.current_screen == other.current_screen
    }

    /// The received bytes and the raw-data window are those of `other`.
    pub open spec fn same_data(&self, other: &Self) -> bool {
        &&& self.received_bytes == other.received_bytes
        &&& self.received_data@ == other.received_data@
    }

    /// The message log and the per-type counts are those of `other`.
    pub open spec fn same_messages(&self, other: &Self) -> bool {
        &&& self.rtcm_messages@ == other.rtcm_messages@
        &&& self.msg_type_counts@ == other.msg_type_counts@
    }

    /// Whether `apply_event` accepts `ev` in this state: the received-bytes
    /// counter and the per-type count must not overflow.
    pub open spec fn accepts(&self, ev: &ViewerEvent) -> bool {
        match ev {
            ViewerEvent::Data(d) => self.received_bytes + d@.len() <= usize::MAX,
            ViewerEvent::Message(log) => count_of(self.msg_type_counts@, log.msg_type) < u32::MAX,
            _ => true,
        }
    }

    /// A fresh viewer for `host` and `port`: disconnected, on the main
    /// screen, with nothing received.
    pub fn new(host: String, port: String) -> (st: Self)
        ensures
            st.wf(),
            st.host@ == host@,
            st.port@ == port@,
            st.connection_status is Disconnected,
            st.received_bytes == 0,
            st.received_data@.len() == 0,
            st.log_messages@.len() == 0,
            st.current_screen == Screen::Main,
            st.rtcm_messages@.len() == 0,
            st.msg_type_counts@ == Map::<i32, u32>::empty(),
    {
        ViewerState {
            host,
            port,
            connection_status: ConnectionStatus::Disconnected,
            received_bytes: 0,
            received_data: Vec::new(),
            log_messages: Vec::new(),
            current_screen: Screen::Main,
            rtcm_messages: Vec::new(),
            msg_type_counts: BTreeMap::new(),
        }
    }

    /// Starts connecting: resets what was received, logs the attempt, and
    /// returns the address `host:port` to connect to.
    pub fn begin_connect(&mut self) -> (addr: String)
        ensures
            final(self).wf(),
            addr@ == old(self).host@ + seq![':'] + old(self).port@,
            final(self).host@ == old(self).host@,
            final(self).port@ == old(self).port@,
            final(self).current_screen == old(self).current_screen,
            final(self).connection_status is Connecting,
            final(self).received_bytes == 0,
            final(self).received_data@.len() == 0,
            texts(final(self).log_messages@) == seq![
                connecting_to_prefix() + addr@ + seq!['.', '.', '.'],
            ],
            final(self).rtcm_messages@.len() == 0,
            final(self).msg_type_counts@ == Map::<i32, u32>::empty(),
    {
        let mut addr = self.host.clone();
        push_char(&mut addr, ':');
        push_str(&mut addr, self.port.as_str());
        self.connection_status = ConnectionStatus::Connecting;
        self.received_bytes = 0;
        self.received_data.clear();
        self.log_messages.clear();
        self.rtcm_messages.clear();
        self.msg_type_counts.clear();
        let mut line = String::new();
        proof {
            reveal_strlit("Connecting to ");
            reveal_strlit("...");
        }
        push_str(&mut line, "Connecting to ");
        push_str(&mut line, addr.as_str());
        push_str(&mut line, "...");
        assert(line@ =~= connecting_to_prefix() + addr@ + seq!['.', '.', '.']);
        self.log_messages.push(line);
        assert(texts(self.log_messages@) =~= seq![
            connecting_to_prefix() + addr@ + seq!['.', '.', '.'],
        ]);
        addr
    }

    fn push_log_line(&mut self, line: String)
        ensures
            texts(final(self).log_messages@) == texts(old(self).log_messages@).push(line@),
            final(self).host@ == old(self).host@,
            final(self).port@ == old(self).port@,
            final(self).connection_status == old(self).connection_status,
            final(self).current_screen == old(self).current_screen,
            final(self).same_data(old(self)),
            final(self).same_messages(old(self)),
    {
        let ghost before = self.log_messages@;
        self.log_messages.push(line);
        assert(texts(self.log_messages@) =~= texts(before).push(line@));
    }

    /// Answers one event of the stream reader and says whether to keep
    /// listening. `Connected` marks the connection established; `Data` adds to
    /// the received-bytes counter and keeps the newest `MAX_RAW` bytes;
    /// `Message` counts the message under its type and keeps the newest
    /// `MAX_MESSAGES` log entries; `Error` and `Disconnected` mark the
    /// connection ended and stop listening. Each logs what happened.
    pub fn apply_event(&mut self, ev: ViewerEvent) -> (flow: Flow)
        requires
            old(self).wf(),
            old(self).accepts(&ev),
        ensures
            final(self).wf(),
            final(self).host@ == old(self).host@,
            final(self).port@ == old(self).port@,
            final(self).current_screen == old(self).current_screen,
            match ev {
                ViewerEvent::Connected => {
                    &&& flow == Flow::Continue
                    &&& final(self).connection_status is Connected
                    &&& texts(final(self).log_messages@) == texts(old(self).log_messages@).push(
                        connected_text(),
                    )
                    &&& final(self).same_data(old(self))
                    &&& final(self).same_messages(old(self))
                },
                ViewerEvent::Data(d) => {
                    &&& flow == Flow::Continue
                    &&& final(self).received_bytes == old(self).received_bytes + d@.len()
                    &&& final(self).received_data@ == keep_last(
                        old(self).received_data@ + d@,
                        MAX_RAW as nat,
                    )
                    &&& final(self).connection_status == old(self).connection_status
                    &&& texts(final(self).log_messages@) == texts(old(self).log_messages@)
                    &&& final(self).same_messages(old(self))
                },
                ViewerEvent::Message(log) => {
                    &&& flow == Flow::Continue
                    &&& final(self).msg_type_counts@ == bump(
                        old(self).msg_type_counts@,
                        log.msg_type,
                    )
                    &&& final(self).rtcm_messages@ == keep_last(
                        old(self).rtcm_messages@.push(log),
                        MAX_MESSAGES as nat,
                    )
                    &&& final(self).connection_status == old(self).connection_status
                    &&& texts(final(self).log_messages@) == texts(old(self).log_messages@)
                    &&& final(self).same_data(old(self))
                },
                ViewerEvent::Error(msg) => {
                    &&& flow == Flow::Stop
                    &&& final(self).connection_status is Error
                    &&& final(self).connection_status->0@ == msg@
                    &&& texts(final(self).log_messages@) == texts(old(self).log_messages@).push(
                        error_prefix() + msg@,
                    )
                    &&& final(self).same_data(old(self))
                    &&& final(self).same_messages(old(self))
                },
                ViewerEvent::Disconnected => {
                    &&& flow == Flow::Stop
                    &&& final(self).connection_status is Disconnected
                    &&& texts(final(self).log_messages@) == texts(old(self).log_messages@).push(
                        remote_disconnected_text(),
                    )
                    &&& final(self).same_data(old(self))
                    &&& final(self).same_messages(old(self))
                },
            },
    {
        match ev {
            ViewerEvent::Connected => {
                self.connection_status = ConnectionStatus::Connected;
                let mut line = String::new();
                proof {
                    reveal_strlit("Connected.");
                }
                push_str(&mut line, "Connected.");
                assert(line@ =~= connected_text());
                self.push_log_line(line);
                Flow::Continue
            },
            ViewerEvent::Data(data) => {
                let mut data = data;
                let ghost d = data@;
                self.received_bytes = self.received_bytes + data.len();
                self.received_data.append(&mut data);
                if self.received_data.len() > MAX_RAW {
                    let excess = self.received_data.len() - MAX_RAW;
                    let tail = self.received_data.split_off(excess);
                    self.received_data = tail;
                }
                Flow::Continue
            },
            ViewerEvent::Message(log) => {
                proof {
                    lemma_message_keeps_cover(self.msg_type_counts@, self.rtcm_messages@, log);
                }
                let t = log.msg_type;
                let c: u32 = match self.msg_type_counts.get(&t) {
                    Some(v) => *v,
                    None => 0,
                };
                self.msg_type_counts.insert(t, c + 1);
                self.rtcm_messages.push(log);
                if self.rtcm_messages.len() > MAX_MESSAGES {
                    let excess = self.rtcm_messages.len() - MAX_MESSAGES;
                    let tail = self.rtcm_messages.split_off(excess);
                    self.rtcm_messages = tail;
                }
                Flow::Continue
            },
            ViewerEvent::Error(msg) => {
                let mut line = String::new();
                proof {
                    reveal_strlit("Error: ");
                }
                push_str(&mut line, "Error: ");
                push_str(&mut line, msg.as_str());
                assert(line@ =~= error_prefix() + msg@);
                self.connection_status = ConnectionStatus::Error(msg);
                self.push_log_line(line);
                Flow::Stop
            },
            ViewerEvent::Disconnected => {
                self.connection_status = ConnectionStatus::Disconnected;
                let mut line = String::new();
                proof {
                    reveal_strlit("Remote disconnected.");
                }
                push_str(&mut line, "Remote disconnected.");
                assert(line@ =~= remote_disconnected_text());
                self.push_log_line(line);
                Flow::Stop
            },
        }
    }

    /// The "Clear" of the main screen: forgets the received bytes and the
    /// connection log.
    pub fn clear_hex_dump(&mut self)
        ensures
            final(self).received_bytes == 0,
            final(self).received_data@.len() == 0,
            final(self).log_messages@.len() == 0,
            final(self).host@ == old(self).host@,
            final(self).port@ == old(self).port@,
            final(self).connection_status == old(self).connection_status,
            final(self).current_screen == old(self).current_screen,
            final(self).same_messages(old(self)),
            old(self).wf() ==> final(self).wf(),
    {
        self.received_data.clear();
        self.received_bytes = 0;
        self.log_messages.clear();
    }

    /// The "Clear" of the inspector: forgets the message log and the counts.
    pub fn clear_inspector(&mut self)
        ensures
            final(self).rtcm_messages@.len() == 0,
            final(self).msg_type_counts@ == Map::<i32, u32>::empty(),
            final(self).same_connection(old(self)),
            final(self).same_data(old(self)),
            old(self).wf() ==> final(self).wf(),
    {
        self.rtcm_messages.clear();
        self.msg_type_counts.clear();
    }

    /// Whether the inspector can be opened: only while connected.
    pub fn inspector_enabled(&self) -> (enabled: bool)
        ensures
            enabled == self.connection_status is Connected,
    {
        matches!(self.connection_status, ConnectionStatus::Connected)
    }

    /// Opens the inspector when it is enabled; says whether it did.
    pub fn open_inspector(&mut self) -> (opened: bool)
        ensures
            opened == old(self).connection_status is Connected,
            final(self).current_screen == (if opened {
                Screen::Rtcm3Inspector
            } else {
                old(self).current_screen
            }),
            final(self).host@ == old(self).host@,
            final(self).port@ == old(self).port@,
            final(self).connection_status == old(self).connection_status,
            texts(final(self).log_messages@) == texts(old(self).log_messages@),
            final(self).same_data(old(self)),
            final(self).same_messages(old(self)),
            old(self).wf() ==> final(self).wf(),
    {
        if self.inspector_enabled() {
            self.current_screen = Screen::Rtcm3Inspector;
            true
        } else {
            false
        }
    }

    /// Goes back from the inspector to the main screen.
    pub fn back_to_main(&mut self)
        ensures
            final(self).current_screen == Screen::Main,
            final(self).host@ == old(self).host@,
            final(self).port@ == old(self).port@,
            final(self).connection_status == old(self).connection_status,
            texts(final(self).log_messages@) == texts(old(self).log_messages@),
            final(self).same_data(old(self)),
            final(self).same_messages(old(self)),
            old(self).wf() ==> final(self).wf(),
    {
        self.current_screen = Screen::Main;
    }

    /// Whether the connection button offers to disconnect (while connecting
    /// or connected) rather than to connect.
    pub fn offers_disconnect(&self) -> (b: bool)
        ensures
            b == (self.connection_status is Connected || self.connection_status is Connecting),
    {
        matches!(self.connection_status, ConnectionStatus::Connected | ConnectionStatus::Connecting)
    }

    /// The colour and text of the connection status.
    pub fn status_label(&self) -> (label: (StatusColor, String))
        ensures
            label.0 == spec_status_color(self.connection_status),
            label.1@ == spec_status_text(self.connection_status),
    {
        let mut text = String::new();
        proof {
            reveal_strlit("Disconnected");
            reveal_strlit("Connecting...");
            reveal_strlit("Connected");
            reveal_strlit("Error: ");
        }
        match &self.connection_status {
            ConnectionStatus::Disconnected => {
                push_str(&mut text, "Disconnected");
                assert(text@ =~= spec_status_text(self.connection_status));
                (StatusColor::Gray, text)
            },
            ConnectionStatus::Connecting => {
                push_str(&mut text, "Connecting...");
                assert(text@ =~= spec_status_text(self.connection_status));
                (StatusColor::Yellow, text)
            },
            ConnectionStatus::Connected => {
                push_str(&mut text, "Connected");
                assert(text@ =~= spec_status_text(self.connection_status));
                (StatusColor::Green, text)
            },
            ConnectionStatus::Error(msg) => {
                push_str(&mut text, "Error: ");
                push_str(&mut text, msg.as_str());
                assert(text@ =~= spec_status_text(self.connection_status));
                (StatusColor::Red, text)
            },
        }
    }

    /// The traffic summary of the main screen.
    pub fn stats_label(&self) -> (label: String)
        ensures
            label@ == seq!['R', 'e', 'c', 'e', 'i', 'v', 'e', 'd', ':', ' '] + spec_dec(
                self.received_bytes as nat,
            ) + seq![
                ' ',
                'b',
                'y',
                't',
                'e',
                's',
                ' ',
                '|',
                ' ',
                'R',
                'T',
                'C',
                'M',
                ' ',
                'm',
                's',
                'g',
                's',
                ':',
                ' ',
            ] + spec_dec(self.rtcm_messages@.len()),
    {
        let mut label = String::new();
        proof {
            reveal_strlit("Received: ");
            reveal_strlit(" bytes | RTCM msgs: ");
        }
        push_str(&mut label, "Received: ");
        push_dec(&mut label, self.received_bytes as u64, 0, ' ');
        push_str(&mut label, " bytes | RTCM msgs: ");
        push_dec(&mut label, self.rtcm_messages.len() as u64, 0, ' ');
        label
    }

    /// The message count of the inspector's title bar.
    pub fn messages_label(&self) -> (label: String)
        ensures
            label@ == seq!['M', 'e', 's', 's', 'a', 'g', 'e', 's', ':', ' '] + spec_dec(
                self.rtcm_messages@.len(),
            ),
    {
        let mut label = String::new();
        proof {
            reveal_strlit("Messages: ");
        }
        push_str(&mut label, "Messages: ");
        push_dec(&mut label, self.rtcm_messages.len() as u64, 0, ' ');
        label
    }

    /// The hex dump of the raw-data window, or `None` while nothing was received.
    pub fn hex_dump_text(&self) -> (dump: Option<String>)
        ensures
            self.received_data@.len() == 0 ==> dump is None,
            self.received_data@.len() > 0 ==> dump is Some && dump->0@ == spec_hex_dump(
                self.received_data@,
            ),
    {
        if self.received_data.len() == 0 {
            None
        } else {
            Some(format_hex_dump(self.received_data.as_slice()))
        }
    }

    /// Disconnects at the user's request.
    pub fn disconnect(&mut self)
        ensures
            final(self).connection_status is Disconnected,
            texts(final(self).log_messages@) == texts(old(self).log_messages@).push(
                disconnected_text(),
            ),
            final(self).host@ == old(self).host@,
            final(self).port@ == old(self).port@,
            final(self).current_screen == old(self).current_screen,
            final(self).same_data(old(self)),
            final(self).same_messages(old(self)),
            old(self).wf() ==> final(self).wf(),
    {
        self.connection_status = ConnectionStatus::Disconnected;
        let mut line = String::new();
        proof {
            reveal_strlit("Disconnected.");
        }
        push_str(&mut line, "Disconnected.");
        assert(line@ =~= disconnected_text());
        let ghost before = self.log_messages@;
        self.log_messages.push(line);
        assert(texts(self.log_messages@) =~= texts(before).push(disconnected_text()));
    }
}

} // verus!
