use base64::Engine;
use plate_studio::clock::{clock_string, LocalTime};
use plate_studio::encoding::{encode_base64, encode_png_base64};

#[test]
fn base64_known_values() {
    assert_eq!(encode_base64(b""), "");
    assert_eq!(encode_base64(b"f"), "Zg==");
    assert_eq!(encode_base64(b"fo"), "Zm8=");
    assert_eq!(encode_base64(b"foo"), "Zm9v");
    assert_eq!(encode_base64(b"foobar"), "Zm9vYmFy");
    assert_eq!(encode_base64(&[0xfb, 0xff]), "+/8=");
}

#[test]
fn png_base64_round_trip() {
    let raw: Vec<u8> = (0..(4 * 3 * 3)).map(|i| (i * 7) as u8).collect();
    let text = encode_png_base64(&raw, 4, 3).unwrap();
    let bytes = base64::engine::general_purpose::STANDARD.decode(text).unwrap();
    assert_eq!(&bytes[1..4], b"PNG");
    let img = image::load_from_memory(&bytes).unwrap().to_rgb8();
    assert_eq!((img.width(), img.height()), (4, 3));
    assert_eq!(img.as_raw(), &raw);
}

#[test]
fn clock_texts() {
    let t = LocalTime { unix_secs: 1_700_000_000, subsec_nanos: 5, utc_offset_secs: 28_800 };
    assert_eq!(clock_string(t, ""), "061320");
    assert_eq!(clock_string(t, ":"), "06:13:20");
    let before_epoch = LocalTime { unix_secs: -1, subsec_nanos: 0, utc_offset_secs: 0 };
    assert_eq!(clock_string(before_epoch, ":"), "23:59:59");
    let leap = LocalTime { unix_secs: 59, subsec_nanos: 1_500_000_000, utc_offset_secs: 0 };
    assert_eq!(clock_string(leap, ":"), "00:00:60");
    let west = LocalTime { unix_secs: 3600, subsec_nanos: 0, utc_offset_secs: -7200 };
    assert_eq!(clock_string(west, ":"), "23:00:00");
}
