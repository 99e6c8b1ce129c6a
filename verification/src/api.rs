//! The decisions behind the HTTP API: what a request asks for, what the
//! state answers, and which error a refused request gets.

use vstd::prelude::*;
use rand::rngs::ThreadRng;
use crate::clock::{clock_string, clock_text, LocalTime};
use crate::encoding::{base64, encode_base64};
use crate::plate_number::{digit, generate_random, infer_bg_color, inferred_color, lemma_generated_plates_are_valid, lemma_province_is_plain, letter, plate_error, province, random_outcome, valid_plate, validate_plate};
use crate::state::{bounded, fullscreen_message, opt_view, PlateRecord, PlateRecordView, SharedData, LOG_LIMIT};
use crate::text::{chars_of, owned, push_char, string_from_chars, trim_chars, trimmed};

verus! {

broadcast use vstd::string::group_string_axioms;

/// Body of `POST /api/v1/plates/generate`.
pub struct GenerateRequest {
    pub plate: Option<String>,
    pub color: Option<String>,
    pub random: Option<bool>,
    /// Whether the answer carries the image as Base64; `true` when absent.
    pub include_image: Option<bool>,
}

/// Answer of `GET /health`.
pub struct HealthResponse {
    pub ok: bool,
    pub service: &'static str,
    pub version: &'static str,
}

/// Query of `GET /api/v1/plates`.
pub struct HistoryQuery {
    pub limit: Option<usize>,
}

/// Body of `POST /api/v1/ui/fullscreen`: `enabled` sets full screen on or
/// off, `toggle` switches it.
pub struct FullscreenRequest {
    pub enabled: Option<bool>,
    pub toggle: Option<bool>,
}

/// Answer of the full-screen routes.
pub struct FullscreenResponse {
    pub enabled: bool,
}

/// The HTTP status class of a refused request.
#[derive(PartialEq, Eq, Structural, Clone, Copy, Debug)]
pub enum ApiErrorKind {
    /// 400
    BadRequest,
    /// 404
    NotFound,
    /// 500
    Internal,
}

/// A refused request: its status class and the message sent back.
pub struct ApiError {
    pub kind: ApiErrorKind,
    pub message: String,
}

impl ApiError {
    /// A 400 answer.
    pub fn bad_request(message: String) -> (e: ApiError)
        ensures
            e.kind == ApiErrorKind::BadRequest,
            e.message@ == message@,
    {
        ApiError { kind: ApiErrorKind::BadRequest, message }
    }

    /// A 404 answer.
    pub fn not_found(message: String) -> (e: ApiError)
        ensures
            e.kind == ApiErrorKind::NotFound,
            e.message@ == message@,
    {
        ApiError { kind: ApiErrorKind::NotFound, message }
    }

    /// A 500 answer.
    pub fn internal(message: String) -> (e: ApiError)
        ensures
            e.kind == ApiErrorKind::Internal,
            e.message@ == message@,
    {
        ApiError { kind: ApiErrorKind::Internal, message }
    }
}

/// The answer of `GET /health`, naming the service and its `version`.
pub fn health(version: &'static str) -> (r: HealthResponse)
    ensures
        r.ok,
        r.service@ == "plate-studio"@,
        r.version == version,
{
    HealthResponse { ok: true, service: "plate-studio", version }
}

/// How many history records `GET /api/v1/plates` answers: the requested
/// number (20 when absent), at most 100.
pub open spec fn history_limit_spec(q: HistoryQuery) -> nat {
    let asked: nat = match q.limit {
        Some(n) => n as nat,
        None => 20,
    };
    if asked < 100 {
        asked
    } else {
        100
    }
}

/// A history query answers the number of records it asks for, capped at
/// 100, and 20 when it asks for no number.
pub proof fn lemma_history_limit(q: HistoryQuery)
    ensures
        q.limit is None ==> history_limit_spec(q) == 20,
        q.limit matches Some(n) ==> history_limit_spec(q) <= n,
        q.limit matches Some(n) ==> history_limit_spec(q) <= 100,
        q.limit matches Some(n) ==> (n <= 100 ==> history_limit_spec(q) == n),
        q.limit matches Some(n) ==> (n >= 100 ==> history_limit_spec(q) == 100),
{
}

/// How many history records `GET /api/v1/plates` answers.
pub fn history_limit(q: &HistoryQuery) -> (r: usize)
    ensures
        r as nat == history_limit_spec(*q),
        r <= 100,
        q.limit is None ==> r == 20,
        q.limit matches Some(n) ==> r == if n < 100 {
            n
        } else {
            100
        },
{
    let asked = match q.limit {
        Some(n) => n,
        None => 20,
    };
    if asked < 100 {
        asked
    } else {
        100
    }
}

/// The newest `limit` history records (all of them if there are fewer).
pub fn recent_history(data: &SharedData, limit: usize) -> (r: Vec<PlateRecord>)
    ensures
        r@.map_values(|p: PlateRecord| p@) == bounded(data.history_view(), limit as nat),
        r@.len() <= limit,
{
    let mut out: Vec<PlateRecord> = Vec::new();
    let n = if data.history.len() < limit {
        data.history.len()
    } else {
        limit
    };
    let mut i: usize = 0;
    while i < n
        invariant
            i <= n,
            n <= data.history@.len(),
            n as nat == bounded(data.history_view(), limit as nat).len(),
            out@.map_values(|p: PlateRecord| p@) =~= data.history_view().take(i as int),
            out@.len() == i,
            n <= limit,
        decreases n - i,
    {
        let rec = data.history[i].clone();
        out.push(rec);
        proof {
            assert(data.history_view().take(i + 1) =~= data.history_view().take(i as int).push(
                data.history@[i as int]@,
            ));
            assert(out@.map_values(|p: PlateRecord| p@) =~= data.history_view().take(i + 1));
        }
        i = i + 1;
    }
    proof {
        if data.history@.len() <= limit {
            assert(data.history_view().take(n as int) =~= data.history_view());
        }
    }
    out
}

/// The answer of `GET /api/v1/plates`.
pub fn history_records(data: &SharedData, q: &HistoryQuery) -> (r: Vec<PlateRecord>)
    ensures
        r@.map_values(|p: PlateRecord| p@) == bounded(data.history_view(), history_limit_spec(*q)),
        r@.len() <= 100,
{
    let limit = history_limit(q);
    recent_history(data, limit)
}

/// The message of the 404 answer when nothing was generated yet.
pub open spec fn no_record_message() -> Seq<char> {
    "尚无生成记录"@
}

/// The answer of `GET /api/v1/plates/latest` before the image is filled
/// in: a copy of the latest record, or 404 when there is none.
pub fn latest_record(data: &SharedData) -> (r: Result<PlateRecord, ApiError>)
    ensures
        match data.latest {
            Some(rec) => r matches Ok(out) && out@ == rec@,
            None => r matches Err(e) && e.kind == ApiErrorKind::NotFound && e.message@
                == no_record_message(),
        },
{
    match &data.latest {
        Some(rec) => Ok(rec.clone()),
        None => Err(ApiError::not_found(owned("尚无生成记录"))),
    }
}

/// The latest record as answered: a missing inline image is filled from
/// the bytes of its image file when these could be read.
pub fn with_image_from_file(record: PlateRecord, file: Option<Vec<u8>>) -> (r: PlateRecord)
    ensures
        r@ == (match (record.image_base64, file) {
            (None, Some(bytes)) => PlateRecordView { image_base64: Some(base64(bytes@)), ..record@ },
            _ => record@,
        }),
{
    let mut out = record;
    if out.image_base64.is_none() {
        if let Some(bytes) = file {
            out.image_base64 = Some(encode_base64(bytes.as_slice()));
        }
    }
    out
}

/// What a full-screen request asks for when full screen is `current`:
/// `toggle` switches it, else `enabled` sets it, else the request is bad.
pub open spec fn fullscreen_target(req: FullscreenRequest, current: bool) -> Option<bool> {
    if req.toggle == Some(true) {
        Some(!current)
    } else {
        req.enabled
    }
}

/// A full-screen request with `toggle` set switches the current state; one
/// without it asks for exactly what `enabled` says, whatever the current
/// state; one with neither asks nothing.
pub proof fn lemma_fullscreen_target(req: FullscreenRequest, current: bool)
    ensures
        req.toggle == Some(true) ==> fullscreen_target(req, current) == Some(!current),
        req.toggle != Some(true) && req.enabled == Some(true) ==> fullscreen_target(req, current)
            == Some(true),
        req.toggle != Some(true) && req.enabled == Some(false) ==> fullscreen_target(req, current)
            == Some(false),
        req.toggle != Some(true) && req.enabled is None ==> fullscreen_target(req, current) is None,
{
}

/// The message of the 400 answer for a full-screen request that asks nothing.
pub open spec fn fullscreen_request_message() -> Seq<char> {
    "请提供 enabled=true/false，或 toggle=true"@
}

/// The message logged when full screen is asked for before any plate exists.
pub open spec fn fullscreen_without_plate_message() -> Seq<char> {
    "API 请求全屏，但尚无车牌图片"@
}

/// Serves `POST /api/v1/ui/fullscreen` on the state: decides the target,
/// notes in the log when full screen is asked for before any plate exists,
/// and switches full screen (logging the switch with source `api`).
pub fn apply_fullscreen_request(data: &mut SharedData, req: &FullscreenRequest) -> (r: Result<
    FullscreenResponse,
    ApiError,
>)
    ensures
        req.toggle == Some(true) ==> (r matches Ok(resp) && resp.enabled
            == !old(data).plate_fullscreen && final(data).plate_fullscreen
            == !old(data).plate_fullscreen),
        req.toggle != Some(true) && req.enabled is Some ==> (r matches Ok(resp)
            && resp.enabled == req.enabled->0 && final(data).plate_fullscreen == req.enabled->0),
        req.toggle != Some(true) && req.enabled is None ==> r is Err && *final(data) == *old(data),
        match fullscreen_target(*req, old(data).plate_fullscreen) {
            None => r matches Err(e) && e.kind == ApiErrorKind::BadRequest && e.message@
                == fullscreen_request_message() && *final(data) == *old(data),
            Some(t) => r matches Ok(resp) && resp.enabled == t && final(data).plate_fullscreen
                == t && final(data).latest == old(data).latest && final(data).history
                == old(data).history && final(data).generation_seq == old(data).generation_seq
                && final(data).log_messages() == ({
                let noted = if t && old(data).latest is None {
                    bounded(
                        seq![fullscreen_without_plate_message()] + old(data).log_messages(),
                        LOG_LIMIT as nat,
                    )
                } else {
                    old(data).log_messages()
                };
                if t != old(data).plate_fullscreen {
                    bounded(seq![fullscreen_message("api"@, t)] + noted, LOG_LIMIT as nat)
                } else {
                    noted
                }
            }),
        },
{
    let current = data.plate_fullscreen;
    let toggle = match req.toggle {
        Some(b) => b,
        None => false,
    };
    let enabled = if toggle {
        !current
    } else if let Some(v) = req.enabled {
        v
    } else {
        return Err(ApiError::bad_request(owned("请提供 enabled=true/false，或 toggle=true")));
    };
    if enabled && data.latest.is_none() {
        data.log(owned("API 请求全屏，但尚无车牌图片"));
    }
    data.set_fullscreen(enabled, "api");
    Ok(FullscreenResponse { enabled })
}

/// How a plate is to be made: drawn at random (in a requested colour if
/// any) or taken as given.
pub enum GeneratePlan {
    Random { prefer_color: Option<String> },
    Given { plate: String, color: String },
}

/// Whether a generate request asks for a random plate: as `random` says,
/// and when it says nothing, exactly when no plate is given.
pub open spec fn wants_random(req: GenerateRequest) -> bool {
    match req.random {
        Some(b) => b,
        None => req.plate is None,
    }
}

/// The message of the 400 answer for a request that gives no plate.
pub open spec fn missing_plate_message() -> Seq<char> {
    "请提供 plate 或设置 random=true"@
}

/// The plate text of a request, trimmed of white space at both ends.
pub open spec fn requested_plate(req: GenerateRequest) -> Option<Seq<char>> {
    match req.plate {
        Some(p) => Some(trimmed(p@)),
        None => None,
    }
}

/// What [`plan_generate`] decides for `req`, with the strings as views:
/// `Ok(None)` draws at random, `Ok(Some((plate, color)))` takes the plate
/// as given, `Err(m)` refuses with a 400 and message `m`.
pub open spec fn plan_outcome(req: GenerateRequest) -> Result<Option<(Seq<char>, Seq<char>)>, Seq<char>> {
    if wants_random(req) {
        Ok(None)
    } else {
        match requested_plate(req) {
            None => Err(missing_plate_message()),
            Some(p) => if p.len() == 0 {
                Err(missing_plate_message())
            } else {
                match plate_error(p) {
                    Some(m) => Err(m),
                    None => Ok(
                        Some(
                            (
                                p,
                                match req.color {
                                    Some(c) => c@,
                                    None => inferred_color(p),
                                },
                            ),
                        ),
                    ),
                }
            },
        }
    }
}

/// A request that gives a valid plate (after trimming) and does not ask for
/// a random one is planned with that plate; its colour is the one asked
/// for, or else the one [`infer_bg_color`] reads from the plate: new-energy
/// for eight characters, ordinary blue for a seven-character plate of a
/// province, a letter and five digits.
pub proof fn lemma_given_plate_plan(req: GenerateRequest)
    requires
        req.random != Some(true),
        req.plate is Some,
        valid_plate(trimmed(req.plate->0@)),
    ensures
        plan_outcome(req) is Ok,
        plan_outcome(req)->Ok_0 is Some,
        plan_outcome(req)->Ok_0->Some_0.0 == trimmed(req.plate->0@),
        req.color matches Some(c) ==> plan_outcome(req)->Ok_0->Some_0.1 == c@,
        req.color is None ==> plan_outcome(req)->Ok_0->Some_0.1 == inferred_color(
            trimmed(req.plate->0@),
        ),
        req.color is None && trimmed(req.plate->0@).len() == 8 ==> plan_outcome(req)->Ok_0->Some_0.1
            == "green_car"@,
        req.color is None && trimmed(req.plate->0@).len() == 7 && province(
            trimmed(req.plate->0@)[0],
        ) && letter(trimmed(req.plate->0@)[1]) && (forall|i: int|
            2 <= i < 7 ==> digit(#[trigger] trimmed(req.plate->0@)[i])) ==> plan_outcome(
            req,
        )->Ok_0->Some_0.1 == "blue"@,
{
    let p = trimmed(req.plate->0@);
    assert(plate_error(p) is None <==> valid_plate(p));
    if req.color is None && p.len() == 7 && province(p[0]) && letter(p[1]) && (forall|i: int|
        2 <= i < 7 ==> digit(#[trigger] p[i])) {
        lemma_province_is_plain(p[0]);
        assert forall|c: char|
            c == '警' || c == '使' || c == '领' || c == '港' || c == '澳' || c == '学' || c == '挂'
                implies !p.contains(c) by {
            if p.contains(c) {
                let k = choose|k: int| 0 <= k < p.len() && p[k] == c;
                if k >= 2 {
                    assert(digit(p[k]));
                }
            }
        }
    }
}

/// Decides how a generate request is served. A random request keeps its
/// colour preference. A given plate is trimmed; an empty or missing one is
/// refused, an invalid one is refused with the validation message, and a
/// missing colour is inferred from the plate.
pub fn plan_generate(req: &GenerateRequest) -> (r: Result<GeneratePlan, ApiError>)
    ensures
        match plan_outcome(*req) {
            Ok(None) => r matches Ok(GeneratePlan::Random { prefer_color }) && opt_view(
                prefer_color,
            ) == opt_view(req.color),
            Ok(Some((p, c))) => r matches Ok(GeneratePlan::Given { plate, color }) && plate@ == p
                && color@ == c,
            Err(m) => r matches Err(e) && e.kind == ApiErrorKind::BadRequest && e.message@ == m,
        },
{
    let random = match req.random {
        Some(b) => b,
        None => req.plate.is_none(),
    };
    if random {
        let prefer_color = match &req.color {
            Some(c) => Some(c.clone()),
            None => None,
        };
        return Ok(GeneratePlan::Random { prefer_color });
    }
    let given = match &req.plate {
        Some(p) => {
            let chars = chars_of(p.as_str());
            trim_chars(chars.as_slice())
        },
        None => {
            return Err(ApiError::bad_request(owned("请提供 plate 或设置 random=true")));
        },
    };
    if given.len() == 0 {
        return Err(ApiError::bad_request(owned("请提供 plate 或设置 random=true")));
    }
    let plate = string_from_chars(given.as_slice());
    match validate_plate(plate.as_str()) {
        Err(m) => {
            return Err(ApiError::bad_request(m));
        },
        Ok(()) => {},
    }
    let color = match &req.color {
        Some(c) => c.clone(),
        None => infer_bg_color(plate.as_str()),
    };
    Ok(GeneratePlan::Given { plate, color })
}

/// The plate number and colour of a plan: drawn with `rng` for a random
/// plan, as given otherwise.
pub fn plate_and_color(plan: GeneratePlan, rng: &mut ThreadRng) -> (r: (String, String))
    ensures
        match plan {
            GeneratePlan::Random { prefer_color } => random_outcome(
                opt_view(prefer_color),
                r.0@,
                r.1@,
            ),
            GeneratePlan::Given { plate, color } => r.0@ == plate@ && r.1@ == color@,
        },
{
    match plan {
        GeneratePlan::Random { prefer_color } => {
            let r = match &prefer_color {
                Some(c) => generate_random(rng, Some(c.as_str())),
                None => generate_random(rng, None),
            };
            r
        },
        GeneratePlan::Given { plate, color } => (plate, color),
    }
}

/// Whether the answer to a generate request carries the image inline.
pub fn wants_image(req: &GenerateRequest) -> (r: bool)
    ensures
        r == (match req.include_image {
            Some(b) => b,
            None => true,
        }),
{
    match req.include_image {
        Some(b) => b,
        None => true,
    }
}

/// The request the window sends: the custom plate unless drawing at
/// random, its colour, and always an inline image.
pub fn gui_request(plate: Option<String>, color: Option<String>, random: bool) -> (r: GenerateRequest)
    ensures
        opt_view(r.plate) == opt_view(plate),
        opt_view(r.color) == opt_view(color),
        r.random == Some(random),
        r.include_image == Some(true),
{
    GenerateRequest { plate, color, random: Some(random), include_image: Some(true) }
}

/// `plate` with every `/` replaced by `_`, safe inside a file name.
pub open spec fn safe_name(plate: Seq<char>) -> Seq<char> {
    plate.map_values(|c: char| if c == '/' { '_' } else { c })
}

/// The image file name of a plate generated at `t`: `{plate}_{HHMMSS}.jpg`.
pub open spec fn image_file_name_spec(plate: Seq<char>, t: LocalTime) -> Seq<char> {
    safe_name(plate) + "_"@ + clock_text(t, ""@) + ".jpg"@
}

/// The image file name of a plate generated at `t`.
pub fn image_file_name(plate: &str, t: LocalTime) -> (r: String)
    requires
        t.well_formed(),
    ensures
        r@ == image_file_name_spec(plate@, t),
{
    let chars = chars_of(plate);
    let mut out = String::new();
    let mut i: usize = 0;
    while i < chars.len()
        invariant
            i <= chars.len(),
            chars@ == plate@,
            out@ == safe_name(chars@.take(i as int)),
        decreases chars.len() - i,
    {
        let c = chars[i];
        push_char(
            &mut out,
            if c == '/' {
                '_'
            } else {
                c
            },
        );
        assert(safe_name(chars@.take(i + 1)) =~= safe_name(chars@.take(i as int)).push(
            if c == '/' {
                '_'
            } else {
                c
            },
        ));
        i = i + 1;
    }
    assert(chars@.take(chars@.len() as int) =~= chars@);
    out.append("_");
    let stamp = clock_string(t, "");
    out.append(stamp.as_str());
    out.append(".jpg");
    out
}

/// The message logged when the API generated `plate`.
pub open spec fn generated_message(plate: Seq<char>) -> Seq<char> {
    "API 生成车牌 "@ + plate
}

/// Logs that the API generated `plate`.
pub fn log_generated(data: &mut SharedData, plate: &str)
    ensures
        final(data).log_messages() == bounded(
            seq![generated_message(plate@)] + old(data).log_messages(),
            LOG_LIMIT as nat,
        ),
        final(data).same_but_logs(old(data)),
{
    let mut m = owned("API 生成车牌 ");
    m.append(plate);
    data.log(m);
}


/// A plate number and colour that serving `req` can produce: the request
/// is accepted, and the pair is drawn at random (in the requested colour,
/// if any) or is the given plate with its colour.
pub open spec fn served_plate(req: GenerateRequest, plate: Seq<char>, color: Seq<char>) -> bool {
    match plan_outcome(req) {
        Ok(None) => random_outcome(opt_view(req.color), plate, color),
        Ok(Some((p, c))) => plate == p && color == c,
        Err(_) => false,
    }
}

/// No plate number that breaks the rules is ever generated: whatever a
/// request asks, every plate served for it passes [`validate_plate`].
pub proof fn lemma_served_plates_are_valid(req: GenerateRequest, plate: Seq<char>, color: Seq<char>)
    requires
        served_plate(req, plate, color),
    ensures
        valid_plate(plate),
        plate_error(plate) is None,
{
    match plan_outcome(req) {
        Ok(None) => {
            lemma_generated_plates_are_valid(opt_view(req.color), plate, color);
        },
        _ => {},
    }
}

/// A request that gives a plate (not asking for a random one) is refused
/// exactly when its trimmed plate is missing, empty or breaks the rules.
pub proof fn lemma_given_plate_refused_iff_invalid(req: GenerateRequest)
    requires
        !wants_random(req),
    ensures
        plan_outcome(req) is Err <==> (match requested_plate(req) {
            None => true,
            Some(p) => p.len() == 0 || !valid_plate(p),
        }),
{
    match requested_plate(req) {
        None => {},
        Some(p) => {
            if p.len() > 0 {
                assert(plate_error(p) is None <==> valid_plate(p));
            }
        },
    }
}

/// Toggling full screen twice leaves it as it was.
pub proof fn lemma_toggle_twice_restores(req: FullscreenRequest, current: bool)
    requires
        req.toggle == Some(true),
    ensures
        fullscreen_target(req, current) matches Some(once) && fullscreen_target(req, once) == Some(
            current,
        ),
{
}


/// What the WebSocket loop of one subscriber observed.
#[derive(PartialEq, Eq, Structural, Clone, Copy, Debug)]
pub enum SocketInput {
    /// An event arrived and was encoded as JSON.
    Event,
    /// An event arrived but could not be encoded.
    EventNotEncoded,
    /// The subscriber fell behind and missed events.
    Lagged,
    /// The event channel closed.
    ChannelClosed,
    /// Sending to the client failed.
    SendFailed,
    /// The client closed the connection (or it ended).
    ClientClosed,
    /// The client sent a ping.
    Ping,
    /// The client sent anything else.
    OtherFrame,
}

/// What the WebSocket loop does next.
#[derive(PartialEq, Eq, Structural, Clone, Copy, Debug)]
pub enum SocketAction {
    /// Send the encoded event to the client.
    Forward,
    /// Wait for the next input.
    Skip,
    /// Answer the ping with a pong carrying its payload.
    Pong,
    /// Leave the loop.
    Stop,
}

/// The WebSocket loop's rule: forward encoded events, pass over events that
/// cannot be encoded and missed ones, answer pings, ignore other frames, and
/// stop when the channel or the connection ends or sending fails.
pub open spec fn socket_rule(input: SocketInput) -> SocketAction {
    match input {
        SocketInput::Event => SocketAction::Forward,
        SocketInput::EventNotEncoded => SocketAction::Skip,
        SocketInput::Lagged => SocketAction::Skip,
        SocketInput::ChannelClosed => SocketAction::Stop,
        SocketInput::SendFailed => SocketAction::Stop,
        SocketInput::ClientClosed => SocketAction::Stop,
        SocketInput::Ping => SocketAction::Pong,
        SocketInput::OtherFrame => SocketAction::Skip,
    }
}

/// What the WebSocket loop does after `input`.
pub fn socket_step(input: SocketInput) -> (r: SocketAction)
    ensures
        r == socket_rule(input),
{
    match input {
        SocketInput::Event => SocketAction::Forward,
        SocketInput::EventNotEncoded => SocketAction::Skip,
        SocketInput::Lagged => SocketAction::Skip,
        SocketInput::ChannelClosed => SocketAction::Stop,
        SocketInput::SendFailed => SocketAction::Stop,
        SocketInput::ClientClosed => SocketAction::Stop,
        SocketInput::Ping => SocketAction::Pong,
        SocketInput::OtherFrame => SocketAction::Skip,
    }
}

/// The message logged when a WebSocket client connects or disconnects.
pub open spec fn socket_message(connected: bool) -> Seq<char> {
    if connected {
        "WebSocket 客户端已连接"@
    } else {
        "WebSocket 客户端已断开"@
    }
}

/// Logs that a WebSocket client connected or disconnected.
pub fn log_socket(data: &mut SharedData, connected: bool)
    ensures
        final(data).log_messages() == bounded(
            seq![socket_message(connected)] + old(data).log_messages(),
            LOG_LIMIT as nat,
        ),
        final(data).same_but_logs(old(data)),
{
    let m = if connected {
        owned("WebSocket 客户端已连接")
    } else {
        owned("WebSocket 客户端已断开")
    };
    data.log(m);
}

} // verus!
