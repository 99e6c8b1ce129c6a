use plate_studio::plate_number;
use plate_studio::plate_number::{
    generate_blue, generate_green_car, generate_random, green_serial_pattern, infer_bg_color,
    is_letter, is_valid_green_plate, style_plate, is_valid_ordinary_plate, ordinary_serial_pattern,
    serial_slots, validate_plate, SerialPattern, SlotKind, GREEN_ALL_DIGITS_BELOW,
    GREEN_ONE_LETTER_BELOW, ORDINARY_ALL_DIGITS_BELOW, ORDINARY_LEADING_LETTER_BELOW, PROVINCES,
};

#[test]
fn random_plate_valid_length() {
    let mut rng = rand::rng();
    for _ in 0..20 {
        let (plate, color) = plate_number::generate_random(&mut rng, None);
        let n = plate.chars().count();
        assert!((7..=8).contains(&n), "{plate} / {color}");
    }
}

#[test]
fn random_green_plate_has_df() {
    let mut rng = rand::rng();
    for _ in 0..50 {
        let (plate, _) = plate_number::generate_random(&mut rng, Some("green_car"));
        assert!(
            plate_number::is_valid_green_plate(&plate),
            "invalid green: {plate}"
        );
        let third = plate.chars().nth(2).unwrap();
        assert!(third == 'D' || third == 'F', "{plate}");
    }
}

#[test]
fn random_blue_plate_second_is_letter() {
    let mut rng = rand::rng();
    for _ in 0..50 {
        let (plate, _) = plate_number::generate_random(&mut rng, Some("blue"));
        assert!(
            plate_number::is_valid_ordinary_plate(&plate),
            "invalid blue: {plate}"
        );
        let second = plate.chars().nth(1).unwrap();
        assert!(plate_number::is_letter(second), "pos1 not letter: {plate}");
    }
}

#[test]
fn letters_exclude_i_and_o() {
    assert!(is_letter('A'));
    assert!(is_letter('Z'));
    assert!(!is_letter('I'));
    assert!(!is_letter('O'));
    assert!(!is_letter('a'));
    assert!(!is_letter('5'));
    assert!(!is_letter('粤'));
}

#[test]
fn ordinary_plates_accepted_and_refused() {
    assert!(is_valid_ordinary_plate("粤C12345"));
    assert!(is_valid_ordinary_plate("粤BA1234"));
    assert!(is_valid_ordinary_plate("粤B1234学"));
    assert!(is_valid_ordinary_plate("京A1234警"));
    assert!(is_valid_ordinary_plate("粤Z1234港"));
    assert!(is_valid_ordinary_plate("使A12345"));
    assert!(is_valid_ordinary_plate("WJ12345"));
    assert!(!is_valid_ordinary_plate("青2XXXXX"));
    assert!(!is_valid_ordinary_plate("粤C1234"));
    assert!(!is_valid_ordinary_plate("粤C123456"));
    assert!(!is_valid_ordinary_plate("粤C12学45"));
    assert!(!is_valid_ordinary_plate("粤CI2345"));
    assert!(!is_valid_ordinary_plate("X粤12345"));
    assert!(!is_valid_ordinary_plate("美C12345"));
}

#[test]
fn green_plates_accepted_and_refused() {
    assert!(is_valid_green_plate("粤AD12345"));
    assert!(is_valid_green_plate("粤AF12K34"));
    assert!(!is_valid_green_plate("粤AE12345"));
    assert!(!is_valid_green_plate("粤1D12345"));
    assert!(!is_valid_green_plate("粤AD1234"));
    assert!(!is_valid_green_plate("粤AD1234学"));
}

#[test]
fn validate_plate_messages() {
    assert_eq!(validate_plate("粤C12345"), Ok(()));
    assert_eq!(validate_plate("粤AD12345"), Ok(()));
    assert_eq!(
        validate_plate("粤C123"),
        Err("车牌长度应为 7 或 8，当前为 5".to_string())
    );
    assert_eq!(
        validate_plate(""),
        Err("车牌长度应为 7 或 8，当前为 0".to_string())
    );
    assert_eq!(
        validate_plate("粤C1234567890"),
        Err("车牌长度应为 7 或 8，当前为 12".to_string())
    );
    assert_eq!(
        validate_plate("粤AX12345"),
        Err("新能源车牌格式：省+字母+D/F+5位，如 粤AD12345 / 粤AF12K34".to_string())
    );
    assert_eq!(
        validate_plate("青2XXXXX"),
        Err(
            "普通车牌第 2 位须为字母（发牌机关代号），格式如 粤B12345，不能是 青2XXXXX"
                .to_string()
        )
    );
}

#[test]
fn inferred_colors() {
    assert_eq!(infer_bg_color("粤AD12345"), "green_car");
    assert_eq!(infer_bg_color("京A1234警"), "white");
    assert_eq!(infer_bg_color("使A12345"), "black_shi");
    assert_eq!(infer_bg_color("粤Z1234港"), "black");
    assert_eq!(infer_bg_color("粤Z1234澳"), "black");
    assert_eq!(infer_bg_color("粤B1234领"), "black");
    assert_eq!(infer_bg_color("粤B1234学"), "yellow");
    assert_eq!(infer_bg_color("粤B1234挂"), "yellow");
    assert_eq!(infer_bg_color("WJ12345"), "white_army");
    assert_eq!(infer_bg_color("粤C12345"), "blue");
    assert_eq!(infer_bg_color(""), "blue");
}

#[test]
fn serial_patterns_follow_thresholds() {
    assert!(matches!(ordinary_serial_pattern(0), SerialPattern::AllDigits));
    assert!(matches!(
        ordinary_serial_pattern(ORDINARY_ALL_DIGITS_BELOW - 1),
        SerialPattern::AllDigits
    ));
    assert!(matches!(
        ordinary_serial_pattern(ORDINARY_ALL_DIGITS_BELOW),
        SerialPattern::LeadingLetter
    ));
    assert!(matches!(
        ordinary_serial_pattern(ORDINARY_LEADING_LETTER_BELOW),
        SerialPattern::OneLetter
    ));
    assert!(matches!(green_serial_pattern(0), SerialPattern::AllDigits));
    assert!(matches!(
        green_serial_pattern(GREEN_ALL_DIGITS_BELOW),
        SerialPattern::OneLetter
    ));
    assert!(matches!(
        green_serial_pattern(GREEN_ONE_LETTER_BELOW),
        SerialPattern::AllAlnum
    ));
    // The thresholds are the fractions 0.55, 0.85, 0.7 and 0.9 over 2^53.
    let scale = (1u64 << 53) as f64;
    assert_eq!(ORDINARY_ALL_DIGITS_BELOW as f64, 0.55 * scale);
    assert_eq!(ORDINARY_LEADING_LETTER_BELOW as f64, 0.85 * scale);
    assert_eq!(GREEN_ALL_DIGITS_BELOW as f64, 0.7 * scale);
    assert_eq!(GREEN_ONE_LETTER_BELOW as f64, 0.9 * scale);
}

#[test]
fn serial_slots_place_the_letter() {
    let slots = serial_slots(&SerialPattern::OneLetter, 3);
    let kinds: Vec<bool> = slots.iter().map(|k| matches!(k, SlotKind::Letter)).collect();
    assert_eq!(kinds, vec![false, false, false, true, false]);
    let slots = serial_slots(&SerialPattern::LeadingLetter, 3);
    assert!(matches!(slots[0], SlotKind::Letter));
    assert!(slots[1..].iter().all(|k| matches!(k, SlotKind::Digit)));
    let slots = serial_slots(&SerialPattern::AllAlnum, 0);
    assert!(slots.iter().all(|k| matches!(k, SlotKind::Alnum)));
}

#[test]
fn generated_plates_have_their_shapes() {
    let mut rng = rand::rng();
    for _ in 0..50 {
        let p: Vec<char> = generate_blue(&mut rng, 7).chars().collect();
        assert_eq!(p.len(), 7);
        assert!(PROVINCES.contains(&p[0]));
        assert!(is_letter(p[1]));
        let letters = p[2..].iter().filter(|c| is_letter(**c)).count();
        assert!(letters <= 1);
        let g = generate_green_car(&mut rng);
        assert!(is_valid_green_plate(&g), "{g}");
        let long = generate_blue(&mut rng, 10);
        assert_eq!(long.chars().count(), 10);
    }
}

#[test]
fn styled_plates_validate_and_infer() {
    let mut rng = rand::rng();
    for color in [
        "blue",
        "yellow",
        "green_car",
        "green_truck",
        "white",
        "white_army",
        "black",
        "black_shi",
        "unknown",
    ] {
        for _ in 0..30 {
            let (plate, c) = generate_random(&mut rng, Some(color));
            assert_eq!(c, color);
            assert_eq!(validate_plate(&plate), Ok(()), "{plate} / {color}");
            match color {
                "white" => assert!(plate.ends_with('警')),
                "black" => assert!(plate.starts_with('粤') && (plate.ends_with('港') || plate.ends_with('澳'))),
                "black_shi" => assert!(plate.starts_with('使')),
                _ => {}
            }
            if matches!(color, "blue" | "white" | "black" | "black_shi" | "green_car") {
                assert_eq!(infer_bg_color(&plate), color, "{plate}");
            }
        }
    }
    for _ in 0..50 {
        let (plate, c) = generate_random(&mut rng, None);
        assert_eq!(infer_bg_color(&plate), c);
    }
}

#[test]
fn color_styles_reshape_blue_plate() {
    let blue = || "粤B12345".to_string();
    assert_eq!(style_plate("blue", blue(), true), "粤B12345");
    assert_eq!(style_plate("yellow", blue(), true), "粤B1234学");
    assert_eq!(style_plate("yellow", blue(), false), "粤B12345");
    assert_eq!(style_plate("white", blue(), false), "粤B1234警");
    assert_eq!(style_plate("black", blue(), true), "粤B1234港");
    assert_eq!(style_plate("black", blue(), false), "粤B1234澳");
    assert_eq!(style_plate("black_shi", blue(), false), "使B12345");
}
