use plate_studio::ui::{
    color_label, color_options, copied_message, display_url, is_copyable_plate, key_switches,
    sync_status,
};

#[test]
fn labels_for_colors() {
    assert_eq!(color_label("blue"), "蓝牌");
    assert_eq!(color_label("green_truck"), "新能源卡");
    assert_eq!(color_label("black_shi"), "使领馆");
    assert_eq!(color_label("purple"), "purple");
    assert_eq!(color_options().len(), 8);
}

#[test]
fn copyable_plates() {
    assert!(is_copyable_plate("粤C12345"));
    assert!(!is_copyable_plate(""));
    assert!(!is_copyable_plate("等待生成"));
}

#[test]
fn title_bar_url() {
    assert_eq!(display_url(&vec![], 18765), "http://127.0.0.1:18765");
    assert_eq!(
        display_url(&vec!["http://192.168.1.2:18765".to_string()], 18765),
        "http://192.168.1.2:18765"
    );
}

#[test]
fn keys_switch_fullscreen() {
    assert_eq!(key_switches(true, false, true, false), vec![true]);
    assert_eq!(key_switches(true, false, false, false), Vec::<bool>::new());
    assert_eq!(key_switches(false, true, true, true), vec![false]);
    assert_eq!(key_switches(false, true, true, false), Vec::<bool>::new());
    assert_eq!(key_switches(true, true, true, false), vec![true, false]);
    assert_eq!(key_switches(true, true, true, true), vec![false]);
}

#[test]
fn copy_status_messages() {
    assert_eq!(copied_message("粤C12345", true), "已复制 粤C12345");
    assert_eq!(copied_message("粤C12345", false), "已复制 粤C12345（若粘贴失败请重试）");
}

#[test]
fn status_follows_new_plate() {
    let (s, refresh) = sync_status("等待生成", 3, 2, Some("粤C12345"), true, None);
    assert_eq!(s, "粤C12345");
    assert!(refresh);
}

#[test]
fn status_kept_when_counter_unchanged() {
    let (s, refresh) = sync_status("等待生成", 2, 2, Some("粤C12345"), true, None);
    assert_eq!(s, "等待生成");
    assert!(!refresh);
    let (s, refresh) = sync_status("等待生成", 3, 2, None, true, None);
    assert_eq!(s, "等待生成");
    assert!(!refresh);
}

#[test]
fn status_shows_service_error() {
    let (s, refresh) = sync_status("等待生成", 3, 2, Some("粤C12345"), false, Some("端口被占用"));
    assert_eq!(s, "服务异常：端口被占用");
    assert!(refresh);
    let (s, _) = sync_status("等待生成", 2, 2, None, true, Some("端口被占用"));
    assert_eq!(s, "等待生成");
}
