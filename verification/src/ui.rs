//! What the window decides: colour labels, when a plate may be copied,
//! which address to show, and how keys switch full screen.

use vstd::prelude::*;
use crate::text::{decimal, decimal_string, owned, str_eq};

verus! {

broadcast use vstd::string::group_string_axioms;

/// The colour keys the window offers, each with its label.
pub fn color_options() -> (r: Vec<(&'static str, &'static str)>)
    ensures
        r@.len() == 8,
        r@[0].0@ == "blue"@ && r@[0].1@ == "蓝牌"@,
        r@[1].0@ == "yellow"@ && r@[1].1@ == "黄牌"@,
        r@[2].0@ == "green_car"@ && r@[2].1@ == "新能源"@,
        r@[3].0@ == "green_truck"@ && r@[3].1@ == "新能源卡"@,
        r@[4].0@ == "white"@ && r@[4].1@ == "警车"@,
        r@[5].0@ == "white_army"@ && r@[5].1@ == "军车"@,
        r@[6].0@ == "black"@ && r@[6].1@ == "港澳"@,
        r@[7].0@ == "black_shi"@ && r@[7].1@ == "使领馆"@,
{
    vec![
        ("blue", "蓝牌"),
        ("yellow", "黄牌"),
        ("green_car", "新能源"),
        ("green_truck", "新能源卡"),
        ("white", "警车"),
        ("white_army", "军车"),
        ("black", "港澳"),
        ("black_shi", "使领馆"),
    ]
}

/// The label of colour `key`: the first matching option's label, or the
/// key itself when no option matches.
pub open spec fn color_label_spec(key: Seq<char>) -> Seq<char> {
    if key == "blue"@ {
        "蓝牌"@
    } else if key == "yellow"@ {
        "黄牌"@
    } else if key == "green_car"@ {
        "新能源"@
    } else if key == "green_truck"@ {
        "新能源卡"@
    } else if key == "white"@ {
        "警车"@
    } else if key == "white_army"@ {
        "军车"@
    } else if key == "black"@ {
        "港澳"@
    } else if key == "black_shi"@ {
        "使领馆"@
    } else {
        key
    }
}

/// The label of colour `key`.
pub fn color_label(key: &str) -> (r: String)
    ensures
        r@ == color_label_spec(key@),
{
    let options = color_options();
    let mut i: usize = 0;
    while i < options.len()
        invariant
            options@.len() == 8,
            0 <= i <= 8,
            options@[0].0@ == "blue"@ && options@[0].1@ == "蓝牌"@,
            options@[1].0@ == "yellow"@ && options@[1].1@ == "黄牌"@,
            options@[2].0@ == "green_car"@ && options@[2].1@ == "新能源"@,
            options@[3].0@ == "green_truck"@ && options@[3].1@ == "新能源卡"@,
            options@[4].0@ == "white"@ && options@[4].1@ == "警车"@,
            options@[5].0@ == "white_army"@ && options@[5].1@ == "军车"@,
            options@[6].0@ == "black"@ && options@[6].1@ == "港澳"@,
            options@[7].0@ == "black_shi"@ && options@[7].1@ == "使领馆"@,
            forall|j: int| 0 <= j < i ==> key@ != (#[trigger] options@[j]).0@,
        decreases 8 - i,
    {
        let (k, v) = options[i];
        if str_eq(k, key) {
            return owned(v);
        }
        i = i + 1;
    }
    owned(key)
}

/// Placeholder shown before any plate exists.
pub open spec fn waiting_text() -> Seq<char> {
    "等待生成"@
}

/// Whether a shown plate text may be copied: not empty and not the
/// placeholder.
pub fn is_copyable_plate(plate: &str) -> (r: bool)
    ensures
        r == (plate@.len() > 0 && plate@ != waiting_text()),
{
    let n = crate::text::chars_of(plate).len();
    n > 0 && !str_eq(plate, "等待生成")
}

/// The address shown in the title bar: the first LAN address, or the
/// loopback address on `port` when none is known.
pub open spec fn display_url_spec(lan_urls: Seq<Seq<char>>, port: u16) -> Seq<char> {
    if lan_urls.len() > 0 {
        lan_urls[0]
    } else {
        "http://127.0.0.1:"@ + decimal(port as nat)
    }
}

/// The address shown in the title bar.
pub fn display_url(lan_urls: &Vec<String>, port: u16) -> (r: String)
    ensures
        r@ == display_url_spec(lan_urls@.map_values(|u: String| u@), port),
{
    if lan_urls.len() > 0 {
        lan_urls[0].clone()
    } else {
        let mut s = owned("http://127.0.0.1:");
        let p = decimal_string(port as u64);
        s.append(p.as_str());
        s
    }
}

/// The full-screen switches a frame makes, in order. F11 (with a preview
/// shown) flips full screen; then Escape, while full screen, leaves it.
/// A switch to the state already in force is not made.
pub open spec fn key_switches_spec(f11: bool, escape: bool, has_preview: bool, fullscreen: bool) -> Seq<bool> {
    let first: Seq<bool> = if f11 && has_preview {
        seq![!fullscreen]
    } else {
        seq![]
    };
    let now = if f11 && has_preview {
        !fullscreen
    } else {
        fullscreen
    };
    if now && escape {
        first.push(false)
    } else {
        first
    }
}

/// The full-screen switches a frame makes, in order.
pub fn key_switches(f11: bool, escape: bool, has_preview: bool, fullscreen: bool) -> (r: Vec<bool>)
    ensures
        r@ == key_switches_spec(f11, escape, has_preview, fullscreen),
{
    let mut out: Vec<bool> = Vec::new();
    let mut now = fullscreen;
    if f11 && has_preview {
        now = !now;
        out.push(now);
    }
    if now && escape {
        out.push(false);
    }
    proof {
        assert(out@ =~= key_switches_spec(f11, escape, has_preview, fullscreen));
    }
    out
}

/// The status after copying `text`: confirmed, with a hint to retry when
/// the system clipboard refused it.
pub open spec fn copied_status(text: Seq<char>, system_clipboard_ok: bool) -> Seq<char> {
    if system_clipboard_ok {
        "已复制 "@ + text
    } else {
        "已复制 "@ + text + "（若粘贴失败请重试）"@
    }
}

/// The status after copying `text`.
pub fn copied_message(text: &str, system_clipboard_ok: bool) -> (r: String)
    ensures
        r@ == copied_status(text@, system_clipboard_ok),
{
    let mut s = owned("已复制 ");
    s.append(text);
    if !system_clipboard_ok {
        s.append("（若粘贴失败请重试）");
    }
    s
}


/// The status line after the window reads the shared state: the new plate
/// when the generation counter moved and a plate exists, the service error
/// when the API is down with one, the old status otherwise.
pub open spec fn synced_status(
    status: Seq<char>,
    seq_moved: bool,
    latest_plate: Option<Seq<char>>,
    listening: bool,
    err: Option<Seq<char>>,
) -> Seq<char> {
    let after_plate = match latest_plate {
        Some(p) => if seq_moved {
            p
        } else {
            status
        },
        None => status,
    };
    match err {
        Some(e) => if !listening {
            "服务异常："@ + e
        } else {
            after_plate
        },
        None => after_plate,
    }
}

/// Whether the window shows a new preview after reading the shared state:
/// when the generation counter moved and a plate exists.
pub open spec fn refreshes_preview(seq_moved: bool, has_latest: bool) -> bool {
    seq_moved && has_latest
}

/// The status line and whether to refresh the preview, after the window
/// reads generation counter `seq` (it last saw `last_seq`), the latest
/// plate, whether the API listens and its error.
pub fn sync_status(
    status: &str,
    seq: u64,
    last_seq: u64,
    latest_plate: Option<&str>,
    listening: bool,
    err: Option<&str>,
) -> (r: (String, bool))
    ensures
        r.0@ == synced_status(
            status@,
            seq != last_seq,
            match latest_plate {
                Some(p) => Some(p@),
                None => None,
            },
            listening,
            match err {
                Some(e) => Some(e@),
                None => None,
            },
        ),
        r.1 == refreshes_preview(seq != last_seq, latest_plate is Some),
{
    let moved = seq != last_seq;
    let mut out = owned(status);
    let mut refresh = false;
    if moved {
        if let Some(p) = latest_plate {
            out = owned(p);
            refresh = true;
        }
    }
    if let Some(e) = err {
        if !listening {
            let mut m = owned("服务异常：");
            m.append(e);
            out = m;
        }
    }
    (out, refresh)
}

} // verus!
