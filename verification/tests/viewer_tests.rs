use rtcm_view::log::RtcmMessageLog;
use rtcm_view::viewer::{
    version_label, ConnectionStatus, Flow, Screen, StatusColor, ViewerEvent, ViewerState,
    MAX_MESSAGES, MAX_RAW,
};

fn entry(msg_type: i32, n: usize) -> RtcmMessageLog {
    RtcmMessageLog { msg_type, msg_desc: format!("RTCM {}", msg_type), detail: format!("#{}", n) }
}

fn connected() -> ViewerState {
    let mut st = ViewerState::new("caster".to_string(), "2101".to_string());
    let addr = st.begin_connect();
    assert_eq!(addr, "caster:2101");
    assert_eq!(st.apply_event(ViewerEvent::Connected), Flow::Continue);
    st
}

#[test]
fn new_viewer_is_idle() {
    let st = ViewerState::new("h".to_string(), "1".to_string());
    assert!(matches!(st.connection_status, ConnectionStatus::Disconnected));
    assert_eq!(st.received_bytes, 0);
    assert!(st.received_data.is_empty());
    assert!(st.log_messages.is_empty());
    assert_eq!(st.current_screen, Screen::Main);
    assert!(st.rtcm_messages.is_empty());
    assert!(st.msg_type_counts.is_empty());
    assert_eq!(st.hex_dump_text(), None);
}

#[test]
fn begin_connect_resets_and_logs() {
    let mut st = connected();
    st.apply_event(ViewerEvent::Data(vec![1, 2, 3]));
    st.apply_event(ViewerEvent::Message(entry(1005, 0)));
    let addr = st.begin_connect();
    assert_eq!(addr, "caster:2101");
    assert!(matches!(st.connection_status, ConnectionStatus::Connecting));
    assert_eq!(st.received_bytes, 0);
    assert!(st.received_data.is_empty());
    assert_eq!(st.log_messages, vec!["Connecting to caster:2101...".to_string()]);
    assert!(st.rtcm_messages.is_empty());
    assert!(st.msg_type_counts.is_empty());
}

#[test]
fn connected_event_logs() {
    let st = connected();
    assert!(matches!(st.connection_status, ConnectionStatus::Connected));
    assert_eq!(st.log_messages.last().unwrap(), "Connected.");
}

#[test]
fn data_events_count_bytes_and_keep_newest_window() {
    let mut st = connected();
    assert_eq!(st.apply_event(ViewerEvent::Data(vec![7u8; 10000])), Flow::Continue);
    let tail: Vec<u8> = (0..10000u32).map(|i| (i % 251) as u8).collect();
    st.apply_event(ViewerEvent::Data(tail.clone()));
    assert_eq!(st.received_bytes, 20000);
    assert_eq!(st.received_data.len(), MAX_RAW);
    let mut all = vec![7u8; 10000];
    all.extend_from_slice(&tail);
    assert_eq!(st.received_data, all[20000 - MAX_RAW..].to_vec());
}

#[test]
fn data_window_matches_one_big_chunk() {
    let mut a = connected();
    let mut b = connected();
    let all: Vec<u8> = (0..40000u32).map(|i| (i * 7 % 256) as u8).collect();
    for chunk in all.chunks(1234) {
        a.apply_event(ViewerEvent::Data(chunk.to_vec()));
    }
    b.apply_event(ViewerEvent::Data(all.clone()));
    assert_eq!(a.received_data, b.received_data);
    assert_eq!(a.received_bytes, 40000);
    assert_eq!(b.received_bytes, 40000);
}

#[test]
fn messages_are_counted_and_log_keeps_newest() {
    let mut st = connected();
    for n in 0..(MAX_MESSAGES + 20) {
        let t = if n % 2 == 0 { 1077 } else { 1087 };
        assert_eq!(st.apply_event(ViewerEvent::Message(entry(t, n))), Flow::Continue);
    }
    assert_eq!(st.rtcm_messages.len(), MAX_MESSAGES);
    assert_eq!(st.rtcm_messages[0].detail, "#20");
    assert_eq!(st.rtcm_messages[MAX_MESSAGES - 1].detail, format!("#{}", MAX_MESSAGES + 19));
    assert_eq!(st.msg_type_counts.get(&1077), Some(&260));
    assert_eq!(st.msg_type_counts.get(&1087), Some(&260));
    assert_eq!(st.msg_type_counts.get(&1005), None);
}

#[test]
fn error_event_stops_listening() {
    let mut st = connected();
    assert_eq!(st.apply_event(ViewerEvent::Error("Read error: reset".to_string())), Flow::Stop);
    match &st.connection_status {
        ConnectionStatus::Error(m) => assert_eq!(m, "Read error: reset"),
        other => panic!("unexpected {:?}", other),
    }
    assert_eq!(st.log_messages.last().unwrap(), "Error: Read error: reset");
    let (color, text) = st.status_label();
    assert_eq!(color, StatusColor::Red);
    assert_eq!(text, "Error: Read error: reset");
}

#[test]
fn remote_disconnect_stops_listening() {
    let mut st = connected();
    assert_eq!(st.apply_event(ViewerEvent::Disconnected), Flow::Stop);
    assert!(matches!(st.connection_status, ConnectionStatus::Disconnected));
    assert_eq!(st.log_messages.last().unwrap(), "Remote disconnected.");
}

#[test]
fn user_disconnect_logs() {
    let mut st = connected();
    st.disconnect();
    assert!(matches!(st.connection_status, ConnectionStatus::Disconnected));
    assert_eq!(st.log_messages.last().unwrap(), "Disconnected.");
}

#[test]
fn status_labels() {
    let mut st = ViewerState::new("h".to_string(), "1".to_string());
    assert_eq!(st.status_label(), (StatusColor::Gray, "Disconnected".to_string()));
    assert!(!st.offers_disconnect());
    st.begin_connect();
    assert_eq!(st.status_label(), (StatusColor::Yellow, "Connecting...".to_string()));
    assert!(st.offers_disconnect());
    st.apply_event(ViewerEvent::Connected);
    assert_eq!(st.status_label(), (StatusColor::Green, "Connected".to_string()));
    assert!(st.offers_disconnect());
}

#[test]
fn inspector_only_opens_while_connected() {
    let mut st = ViewerState::new("h".to_string(), "1".to_string());
    assert!(!st.inspector_enabled());
    assert!(!st.open_inspector());
    assert_eq!(st.current_screen, Screen::Main);
    st.begin_connect();
    assert!(!st.open_inspector());
    st.apply_event(ViewerEvent::Connected);
    assert!(st.inspector_enabled());
    assert!(st.open_inspector());
    assert_eq!(st.current_screen, Screen::Rtcm3Inspector);
    st.back_to_main();
    assert_eq!(st.current_screen, Screen::Main);
}

#[test]
fn labels_and_clears() {
    let mut st = connected();
    st.apply_event(ViewerEvent::Data(b"AB".to_vec()));
    st.apply_event(ViewerEvent::Message(entry(1005, 0)));
    assert_eq!(st.stats_label(), "Received: 2 bytes | RTCM msgs: 1");
    assert_eq!(st.messages_label(), "Messages: 1");
    assert_eq!(
        st.hex_dump_text(),
        Some("00000000  41 42                                             |AB|\n".to_string())
    );
    st.clear_inspector();
    assert!(st.rtcm_messages.is_empty());
    assert!(st.msg_type_counts.is_empty());
    assert_eq!(st.received_bytes, 2);
    st.clear_hex_dump();
    assert_eq!(st.received_bytes, 0);
    assert!(st.received_data.is_empty());
    assert!(st.log_messages.is_empty());
    assert_eq!(st.stats_label(), "Received: 0 bytes | RTCM msgs: 0");
}

#[test]
fn version_label_format() {
    assert_eq!(version_label("v1.2.0-3-gabc", "abc1234"), "v1.2.0-3-gabc (abc1234)");
}

#[test]
fn counts_cover_the_log_after_trimming() {
    let mut st = connected();
    for n in 0..(MAX_MESSAGES + 50) {
        let t = [1005, 1077, 1087, 1127][n % 4];
        st.apply_event(ViewerEvent::Message(entry(t, n)));
    }
    for m in &st.rtcm_messages {
        assert!(*st.msg_type_counts.get(&m.msg_type).unwrap() >= 1);
    }
    let total: u64 = st.msg_type_counts.values().map(|&c| c as u64).sum();
    assert!(total >= st.rtcm_messages.len() as u64);
    assert_eq!(total, (MAX_MESSAGES + 50) as u64);
}
