use plate_studio::clock::LocalTime;
use plate_studio::state::{PlateRecord, SharedData, WsEvent, DEFAULT_PORT, HISTORY_LIMIT, LOG_LIMIT};

fn record(plate: &str, with_image: bool) -> PlateRecord {
    PlateRecord {
        plate: plate.to_string(),
        color: "blue".to_string(),
        image_path: format!("/out/{plate}.png"),
        image_base64: if with_image { Some("AAAA".to_string()) } else { None },
        created_at: LocalTime { unix_secs: 1_700_000_000, subsec_nanos: 0, utc_offset_secs: 28_800 },
        source: "api".to_string(),
    }
}

#[test]
fn new_state_defaults() {
    let d = SharedData::new(DEFAULT_PORT);
    assert!(d.latest.is_none());
    assert!(d.history.is_empty());
    assert!(d.api_logs.is_empty());
    assert_eq!(d.api_port, 18765);
    assert!(!d.api_listening);
    assert!(d.api_error.is_none());
    assert_eq!(d.generation_seq, 0);
    assert_eq!(d.custom_plate, "粤C12345");
    assert_eq!(d.selected_color, "blue");
    assert!(d.use_random);
    assert!(!d.plate_fullscreen);
}

#[test]
fn push_record_reads_back_and_strips_history_image() {
    let mut d = SharedData::new(DEFAULT_PORT);
    d.push_record(record("粤C12345", true));
    assert_eq!(d.generation_seq, 1);
    let latest = d.latest.as_ref().unwrap();
    assert_eq!(latest.plate, "粤C12345");
    assert_eq!(latest.image_base64.as_deref(), Some("AAAA"));
    assert_eq!(d.history.len(), 1);
    assert_eq!(d.history[0].plate, "粤C12345");
    assert!(d.history[0].image_base64.is_none());
    d.push_record(record("粤C22222", false));
    assert_eq!(d.history[0].plate, "粤C22222");
    assert_eq!(d.history[1].plate, "粤C12345");
}

#[test]
fn history_keeps_newest_hundred() {
    let mut d = SharedData::new(DEFAULT_PORT);
    for i in 0..130 {
        d.push_record(record(&format!("粤C{:05}", i), false));
    }
    assert_eq!(d.history.len(), HISTORY_LIMIT);
    assert_eq!(d.history[0].plate, "粤C00129");
    assert_eq!(d.history[99].plate, "粤C00030");
    assert_eq!(d.generation_seq, 130);
}

#[test]
fn log_keeps_newest_two_hundred() {
    let mut d = SharedData::new(DEFAULT_PORT);
    for i in 0..250 {
        d.log(format!("m{i}"));
    }
    assert_eq!(d.api_logs.len(), LOG_LIMIT);
    assert_eq!(d.api_logs[0].message, "m249");
    assert_eq!(d.api_logs[199].message, "m50");
}

#[test]
fn fullscreen_switch_logs_once() {
    let mut d = SharedData::new(DEFAULT_PORT);
    assert!(d.set_fullscreen(true, "gui"));
    assert!(d.plate_fullscreen);
    assert_eq!(d.api_logs.len(), 1);
    assert_eq!(d.api_logs[0].message, "gui 全屏：开启");
    assert!(!d.set_fullscreen(true, "api"));
    assert_eq!(d.api_logs.len(), 1);
    assert!(d.set_fullscreen(false, "api"));
    assert_eq!(d.api_logs[0].message, "api 全屏：关闭");
    assert!(!d.plate_fullscreen);
}

#[test]
fn listening_and_failure_are_logged() {
    let mut d = SharedData::new(DEFAULT_PORT);
    d.mark_listening(
        18765,
        vec!["http://192.168.1.10:18765".to_string(), "http://10.0.0.2:18765".to_string()],
    );
    assert!(d.api_listening);
    assert_eq!(d.lan_urls.len(), 2);
    assert_eq!(d.api_logs[2].message, "API 已监听 0.0.0.0:18765（局域网可访问）");
    assert_eq!(d.api_logs[1].message, "局域网地址 http://192.168.1.10:18765");
    assert_eq!(d.api_logs[0].message, "局域网地址 http://10.0.0.2:18765");
    d.mark_failed("address in use".to_string());
    assert!(!d.api_listening);
    assert_eq!(d.api_error.as_deref(), Some("address in use"));
    assert_eq!(d.api_logs[0].message, "API 启动失败: address in use");
}

#[test]
fn generated_event_copies_record() {
    let r = record("粤C12345", true);
    match WsEvent::plate_generated(&r) {
        WsEvent::PlateGenerated { plate, color, image_path, ts, source } => {
            assert_eq!(plate, "粤C12345");
            assert_eq!(color, "blue");
            assert_eq!(image_path, "/out/粤C12345.png");
            assert_eq!(ts.unix_secs, 1_700_000_000);
            assert_eq!(source, "api");
        }
        _ => panic!("wrong event"),
    }
}

#[test]
fn log_entry_carries_given_time() {
    let mut d = SharedData::new(DEFAULT_PORT);
    let t1 = LocalTime { unix_secs: 1_700_000_000, subsec_nanos: 5, utc_offset_secs: 28_800 };
    let t2 = LocalTime { unix_secs: 1_700_000_060, subsec_nanos: 0, utc_offset_secs: 28_800 };
    d.log_at("first".to_string(), t1);
    d.log_at("second".to_string(), t2);
    assert_eq!(d.api_logs.len(), 2);
    assert_eq!(d.api_logs[0].message, "second");
    assert_eq!(d.api_logs[0].time.unix_secs, 1_700_000_060);
    assert_eq!(d.api_logs[1].message, "first");
    assert_eq!(d.api_logs[1].time.subsec_nanos, 5);
}

#[test]
fn pushes_and_logs_keep_state_consistent() {
    let mut d = SharedData::new(DEFAULT_PORT);
    for i in 0..150 {
        d.push_record(record(&format!("粤C{i:05}"), true));
        d.log(format!("m{i}"));
    }
    assert_eq!(d.generation_seq, 150);
    assert_eq!(d.history.len(), HISTORY_LIMIT);
    assert!(d.history.iter().all(|h| h.image_base64.is_none()));
    assert_eq!(d.history[0].plate, d.latest.as_ref().unwrap().plate);
    assert_eq!(d.api_logs.len(), 150);
}
