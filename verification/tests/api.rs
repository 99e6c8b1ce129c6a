use plate_studio::api::{
    apply_fullscreen_request, gui_request, health, history_limit, history_records,
    image_file_name, latest_record, log_generated, plan_generate, plate_and_color, wants_image,
    with_image_from_file, ApiErrorKind, FullscreenRequest, GeneratePlan, GenerateRequest,
    HistoryQuery, SocketAction, SocketInput, log_socket, socket_step,
};
use plate_studio::clock::LocalTime;
use plate_studio::plate_number::validate_plate;
use plate_studio::state::{PlateRecord, SharedData, DEFAULT_PORT};

fn request(plate: Option<&str>, color: Option<&str>, random: Option<bool>) -> GenerateRequest {
    GenerateRequest {
        plate: plate.map(|s| s.to_string()),
        color: color.map(|s| s.to_string()),
        random,
        include_image: None,
    }
}

fn at(secs: i64) -> LocalTime {
    LocalTime { unix_secs: secs, subsec_nanos: 0, utc_offset_secs: 28_800 }
}

fn record(plate: &str) -> PlateRecord {
    PlateRecord {
        plate: plate.to_string(),
        color: "blue".to_string(),
        image_path: "/out/p.png".to_string(),
        image_base64: None,
        created_at: at(0),
        source: "api".to_string(),
    }
}

#[test]
fn health_names_service() {
    let h = health("0.1.0");
    assert!(h.ok);
    assert_eq!(h.service, "plate-studio");
    assert_eq!(h.version, "0.1.0");
}

#[test]
fn history_limit_defaults_and_caps() {
    assert_eq!(history_limit(&HistoryQuery { limit: None }), 20);
    assert_eq!(history_limit(&HistoryQuery { limit: Some(5) }), 5);
    assert_eq!(history_limit(&HistoryQuery { limit: Some(100) }), 100);
    assert_eq!(history_limit(&HistoryQuery { limit: Some(500) }), 100);
}

#[test]
fn history_records_newest_first() {
    let mut d = SharedData::new(DEFAULT_PORT);
    for i in 0..30 {
        d.push_record(record(&format!("粤C{:05}", i)));
    }
    let h = history_records(&d, &HistoryQuery { limit: None });
    assert_eq!(h.len(), 20);
    assert_eq!(h[0].plate, "粤C00029");
    let h = history_records(&d, &HistoryQuery { limit: Some(3) });
    assert_eq!(h.len(), 3);
    assert_eq!(h[2].plate, "粤C00027");
    let h = history_records(&d, &HistoryQuery { limit: Some(1000) });
    assert_eq!(h.len(), 30);
}

#[test]
fn latest_is_not_found_before_any_plate() {
    let mut d = SharedData::new(DEFAULT_PORT);
    match latest_record(&d) {
        Err(e) => {
            assert_eq!(e.kind, ApiErrorKind::NotFound);
            assert_eq!(e.message, "尚无生成记录");
        }
        Ok(_) => panic!("expected 404"),
    }
    d.push_record(record("粤C12345"));
    let r = latest_record(&d).ok().unwrap();
    assert_eq!(r.plate, "粤C12345");
}

#[test]
fn missing_image_is_filled_from_file() {
    let filled = with_image_from_file(record("粤C12345"), Some(vec![1, 2, 3]));
    assert_eq!(filled.image_base64.as_deref(), Some("AQID"));
    let unread = with_image_from_file(record("粤C12345"), None);
    assert!(unread.image_base64.is_none());
    let mut inline = record("粤C12345");
    inline.image_base64 = Some("KEEP".to_string());
    let kept = with_image_from_file(inline, Some(vec![1, 2, 3]));
    assert_eq!(kept.image_base64.as_deref(), Some("KEEP"));
}

#[test]
fn fullscreen_requests() {
    let mut d = SharedData::new(DEFAULT_PORT);
    let bad = apply_fullscreen_request(&mut d, &FullscreenRequest { enabled: None, toggle: None });
    match bad {
        Err(e) => {
            assert_eq!(e.kind, ApiErrorKind::BadRequest);
            assert_eq!(e.message, "请提供 enabled=true/false，或 toggle=true");
        }
        Ok(_) => panic!("expected 400"),
    }
    assert!(d.api_logs.is_empty());
    let on = apply_fullscreen_request(&mut d, &FullscreenRequest { enabled: Some(true), toggle: None });
    assert!(on.ok().unwrap().enabled);
    assert!(d.plate_fullscreen);
    assert_eq!(d.api_logs[1].message, "API 请求全屏，但尚无车牌图片");
    assert_eq!(d.api_logs[0].message, "api 全屏：开启");
    let toggled = apply_fullscreen_request(
        &mut d,
        &FullscreenRequest { enabled: Some(true), toggle: Some(true) },
    );
    assert!(!toggled.ok().unwrap().enabled);
    assert!(!d.plate_fullscreen);
    let again = apply_fullscreen_request(&mut d, &FullscreenRequest { enabled: None, toggle: Some(true) });
    assert!(again.ok().unwrap().enabled);
    let before = d.api_logs.len();
    let same = apply_fullscreen_request(&mut d, &FullscreenRequest { enabled: Some(true), toggle: Some(false) });
    assert!(same.ok().unwrap().enabled);
    assert_eq!(d.api_logs.len(), before + 1);
}

#[test]
fn plan_random_and_given() {
    match plan_generate(&request(None, Some("blue"), None)).ok().unwrap() {
        GeneratePlan::Random { prefer_color } => assert_eq!(prefer_color.as_deref(), Some("blue")),
        _ => panic!("expected random"),
    }
    match plan_generate(&request(Some("粤C12345"), Some("yellow"), Some(true))).ok().unwrap() {
        GeneratePlan::Random { prefer_color } => assert_eq!(prefer_color.as_deref(), Some("yellow")),
        _ => panic!("expected random"),
    }
    match plan_generate(&request(Some("  粤C12345\n"), None, None)).ok().unwrap() {
        GeneratePlan::Given { plate, color } => {
            assert_eq!(plate, "粤C12345");
            assert_eq!(color, "blue");
        }
        _ => panic!("expected given"),
    }
    match plan_generate(&request(Some("粤AD12345"), Some("green_truck"), Some(false))).ok().unwrap() {
        GeneratePlan::Given { plate, color } => {
            assert_eq!(plate, "粤AD12345");
            assert_eq!(color, "green_truck");
        }
        _ => panic!("expected given"),
    }
}

#[test]
fn plan_refusals() {
    for req in [request(None, None, Some(false)), request(Some("   "), None, None)] {
        match plan_generate(&req) {
            Err(e) => {
                assert_eq!(e.kind, ApiErrorKind::BadRequest);
                assert_eq!(e.message, "请提供 plate 或设置 random=true");
            }
            Ok(_) => panic!("expected 400"),
        }
    }
    match plan_generate(&request(Some("青2XXXXX"), None, None)) {
        Err(e) => {
            assert_eq!(e.kind, ApiErrorKind::BadRequest);
            assert_eq!(e.message, validate_plate("青2XXXXX").unwrap_err());
        }
        Ok(_) => panic!("expected 400"),
    }
}

#[test]
fn plate_and_color_serves_valid_plates() {
    let mut rng = rand::rng();
    let given = plate_and_color(
        GeneratePlan::Given { plate: "粤C12345".to_string(), color: "blue".to_string() },
        &mut rng,
    );
    assert_eq!(given, ("粤C12345".to_string(), "blue".to_string()));
    for _ in 0..30 {
        let (plate, color) =
            plate_and_color(GeneratePlan::Random { prefer_color: Some("white".to_string()) }, &mut rng);
        assert_eq!(color, "white");
        assert_eq!(validate_plate(&plate), Ok(()));
    }
}

#[test]
fn image_flag_and_gui_request() {
    assert!(wants_image(&request(None, None, None)));
    let mut r = request(None, None, None);
    r.include_image = Some(false);
    assert!(!wants_image(&r));
    let g = gui_request(Some("粤C12345".to_string()), Some("blue".to_string()), false);
    assert_eq!(g.plate.as_deref(), Some("粤C12345"));
    assert_eq!(g.random, Some(false));
    assert_eq!(g.include_image, Some(true));
}

#[test]
fn image_file_names() {
    // 2023-11-14 22:13:20 UTC is 06:13:20 the next day at UTC+8.
    assert_eq!(image_file_name("粤C12345", at(1_700_000_000)), "粤C12345_061320.jpg");
    assert_eq!(image_file_name("a/b", at(0)), "a_b_080000.jpg");
}

#[test]
fn generation_is_logged() {
    let mut d = SharedData::new(DEFAULT_PORT);
    log_generated(&mut d, "粤C12345");
    assert_eq!(d.api_logs[0].message, "API 生成车牌 粤C12345");
}

#[test]
fn socket_loop_rule() {
    assert_eq!(socket_step(SocketInput::Event), SocketAction::Forward);
    assert_eq!(socket_step(SocketInput::EventNotEncoded), SocketAction::Skip);
    assert_eq!(socket_step(SocketInput::Lagged), SocketAction::Skip);
    assert_eq!(socket_step(SocketInput::ChannelClosed), SocketAction::Stop);
    assert_eq!(socket_step(SocketInput::SendFailed), SocketAction::Stop);
    assert_eq!(socket_step(SocketInput::ClientClosed), SocketAction::Stop);
    assert_eq!(socket_step(SocketInput::Ping), SocketAction::Pong);
    assert_eq!(socket_step(SocketInput::OtherFrame), SocketAction::Skip);
}

#[test]
fn socket_connections_are_logged() {
    let mut d = SharedData::new(DEFAULT_PORT);
    log_socket(&mut d, true);
    log_socket(&mut d, false);
    assert_eq!(d.api_logs.len(), 2);
    assert_eq!(d.api_logs[0].message, "WebSocket 客户端已断开");
    assert_eq!(d.api_logs[1].message, "WebSocket 客户端已连接");
}
