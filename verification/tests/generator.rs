use plate_studio::generator::{
    fits_layout, font_key, font_prescale, is_red_char, location_data, model_file_name, pixel_action,
    plate_size, split_id, text_color, PixelAction, BASE_HEIGHT, RENDER_SCALE, SCENE_H, SCENE_W,
};

#[test]
fn plate_sizes() {
    assert_eq!(plate_size(7), (440 * RENDER_SCALE, 140 * RENDER_SCALE));
    assert_eq!(plate_size(8), (480 * RENDER_SCALE, 140 * RENDER_SCALE));
    assert_eq!((SCENE_W, SCENE_H), (1280, 720));
    assert_eq!(BASE_HEIGHT, 140);
}

#[test]
fn split_positions() {
    assert_eq!(split_id("京A1234警"), 1);
    assert_eq!(split_id("使A12345"), 4);
    assert_eq!(split_id("粤C12345"), 2);
}

#[test]
fn seven_glyph_layout() {
    let boxes = location_data(7, 2, 140, 3);
    let lefts: Vec<i32> = boxes.iter().map(|b| b[0]).collect();
    let rights: Vec<i32> = boxes.iter().map(|b| b[2]).collect();
    assert_eq!(lefts, vec![45, 216, 453, 624, 795, 966, 1137]);
    assert_eq!(rights, vec![180, 351, 588, 759, 930, 1101, 1272]);
    assert!(boxes.iter().all(|b| b[1] == 75 && b[3] == 345));
}

#[test]
fn eight_glyph_layout() {
    let boxes = location_data(8, 2, 140, 3);
    let lefts: Vec<i32> = boxes.iter().map(|b| b[0]).collect();
    let rights: Vec<i32> = boxes.iter().map(|b| b[2]).collect();
    assert_eq!(lefts, vec![45, 207, 483, 639, 795, 951, 1107, 1263]);
    assert_eq!(rights, vec![180, 336, 612, 768, 924, 1080, 1236, 1392]);
}

#[test]
fn other_template_heights_have_empty_boxes() {
    let boxes = location_data(7, 2, 220, 3);
    assert_eq!(boxes.len(), 7);
    assert!(boxes.iter().all(|b| *b == [0, 0, 0, 0]));
}

#[test]
fn file_names_and_keys() {
    assert_eq!(model_file_name("blue", 140), "blue_140.PNG");
    assert_eq!(font_key("粤C12345", '粤', 140), "140_粤");
    assert_eq!(font_key("粤AD12345", 'D', 140), "green_D");
}

#[test]
fn glyph_colors() {
    assert!(is_red_char(3, '警'));
    assert!(is_red_char(0, 'W'));
    assert!(!is_red_char(1, 'W'));
    assert!(!is_red_char(0, '粤'));
    assert_eq!(text_color("blue", false), [255, 255, 255]);
    assert_eq!(text_color("black_shi", false), [255, 255, 255]);
    assert_eq!(text_color("yellow", false), [0, 0, 0]);
    assert_eq!(text_color("green_car", true), [255, 0, 0]);
}

#[test]
fn glyph_prescale_sizes() {
    assert_eq!(font_prescale("140_A"), Some((45, 90)));
    assert_eq!(font_prescale("220_1"), Some((65, 110)));
    assert_eq!(font_prescale("green_A"), Some((43, 90)));
    assert_eq!(font_prescale("green_7"), Some((43, 90)));
    assert_eq!(font_prescale("green_粤"), None);
    assert_eq!(font_prescale("green_AB"), None);
    assert_eq!(font_prescale("green_I"), None);
    assert_eq!(font_prescale("5"), Some((43, 90)));
}

#[test]
fn pixel_actions() {
    assert_eq!(pixel_action(255), PixelAction::Keep);
    assert_eq!(pixel_action(200), PixelAction::Keep);
    assert_eq!(pixel_action(199), PixelAction::Blend { weight: 1 });
    assert_eq!(pixel_action(160), PixelAction::Blend { weight: 40 });
    assert_eq!(pixel_action(159), PixelAction::Paint);
    assert_eq!(pixel_action(0), PixelAction::Paint);
}

#[test]
fn layout_bound_is_the_last_right_edge() {
    assert!(fits_layout(7, 2, 140, 4_000_000));
    let boxes = location_data(7, 2, 140, 4_000_000);
    assert_eq!(boxes[6][2], 424 * 4_000_000);
    assert_eq!(boxes[0][3], 115 * 4_000_000);
    assert!(!fits_layout(7, 2, 140, 6_000_000));
    assert!(!fits_layout(7, 2, 140, u32::MAX));
    assert!(fits_layout(7, 2, 220, u32::MAX));
    assert!(fits_layout(0, 0, 140, u32::MAX));
    assert!(fits_layout(8, 2, 140, RENDER_SCALE));
}

#[test]
fn boxes_scale_with_the_scale() {
    let one = location_data(8, 2, 140, 1);
    let three = location_data(8, 2, 140, 3);
    for (a, b) in one.iter().zip(three.iter()) {
        for k in 0..4 {
            assert_eq!(a[k] * 3, b[k]);
        }
    }
    for i in 1..one.len() {
        assert!(one[i - 1][2] < one[i][0] && one[i][0] < one[i][2]);
    }
}
