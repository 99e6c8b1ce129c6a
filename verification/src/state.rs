//! Shared state: the latest plate, the bounded history, the bounded API
//! log, the UI selections, and the events pushed to subscribers.

use std::collections::VecDeque;
use vstd::prelude::*;
use crate::clock::{local_now, LocalTime};
use crate::text::{decimal, decimal_string, owned};

verus! {

broadcast use vstd::string::group_string_axioms;

/// The port the HTTP API listens on.
pub const DEFAULT_PORT: u16 = 18765;

/// How many records the history keeps.
pub const HISTORY_LIMIT: usize = 100;

/// How many entries the API log keeps.
pub const LOG_LIMIT: usize = 200;

/// The first `limit` elements of `s` (all of them if there are fewer).
pub open spec fn bounded<T>(s: Seq<T>, limit: nat) -> Seq<T> {
    if s.len() > limit {
        s.take(limit as int)
    } else {
        s
    }
}

/// One generated plate.
pub struct PlateRecord {
    pub plate: String,
    pub color: String,
    pub image_path: String,
    pub image_base64: Option<String>,
    pub created_at: LocalTime,
    pub source: String,
}

/// A [`PlateRecord`] with its strings as character sequences.
pub struct PlateRecordView {
    pub plate: Seq<char>,
    pub color: Seq<char>,
    pub image_path: Seq<char>,
    pub image_base64: Option<Seq<char>>,
    pub created_at: LocalTime,
    pub source: Seq<char>,
}

/// The view of an optional string.
pub open spec fn opt_view(o: Option<String>) -> Option<Seq<char>> {
    match o {
        Some(s) => Some(s@),
        None => None,
    }
}

impl View for PlateRecord {
    type V = PlateRecordView;

    open spec fn view(&self) -> PlateRecordView {
        PlateRecordView {
            plate: self.plate@,
            color: self.color@,
            image_path: self.image_path@,
            image_base64: opt_view(self.image_base64),
            created_at: self.created_at,
            source: self.source@,
        }
    }
}

impl PlateRecordView {
    /// The same record without its inline image.
    pub open spec fn without_image(self) -> PlateRecordView {
        PlateRecordView { image_base64: None, ..self }
    }
}

/// A copy of an optional string.
pub fn clone_opt_string(o: &Option<String>) -> (r: Option<String>)
    ensures
        opt_view(r) == opt_view(*o),
{
    match o {
        Some(s) => Some(s.clone()),
        None => None,
    }
}

impl PlateRecord {
    /// A copy of the record without its inline image, as the history keeps it.
    pub fn without_image(&self) -> (r: PlateRecord)
        ensures
            r@ == self@.without_image(),
    {
        PlateRecord {
            plate: self.plate.clone(),
            color: self.color.clone(),
            image_path: self.image_path.clone(),
            image_base64: None,
            created_at: self.created_at,
            source: self.source.clone(),
        }
    }
}

impl Clone for PlateRecord {
    fn clone(&self) -> (r: Self)
        ensures
            r@ == self@,
    {
        PlateRecord {
            plate: self.plate.clone(),
            color: self.color.clone(),
            image_path: self.image_path.clone(),
            image_base64: clone_opt_string(&self.image_base64),
            created_at: self.created_at,
            source: self.source.clone(),
        }
    }
}

/// One line of the API log.
pub struct ApiLogEntry {
    pub time: LocalTime,
    pub message: String,
}

/// An event pushed to WebSocket subscribers.
pub enum WsEvent {
    PlateGenerated {
        plate: String,
        color: String,
        image_path: String,
        ts: LocalTime,
        source: String,
    },
    FullscreenChanged { enabled: bool, ts: LocalTime, source: String },
}

impl WsEvent {
    /// The event announcing `record`.
    pub fn plate_generated(record: &PlateRecord) -> (e: WsEvent)
        ensures
            e matches WsEvent::PlateGenerated { plate, color, image_path, ts, source } && plate@
                == record.plate@ && color@ == record.color@ && image_path@ == record.image_path@
                && ts == record.created_at && source@ == record.source@,
    {
        WsEvent::PlateGenerated {
            plate: record.plate.clone(),
            color: record.color.clone(),
            image_path: record.image_path.clone(),
            ts: record.created_at,
            source: record.source.clone(),
        }
    }
}

/// State shared by the HTTP API and the window.
pub struct SharedData {
    pub latest: Option<PlateRecord>,
    pub history: VecDeque<PlateRecord>,
    pub api_logs: VecDeque<ApiLogEntry>,
    pub api_port: u16,
    pub api_listening: bool,
    pub api_error: Option<String>,
    /// `http://IP:port` addresses reachable from the local network.
    pub lan_urls: Vec<String>,
    /// Counts generated plates, so that the window notices new ones.
    pub generation_seq: u64,
    pub custom_plate: String,
    pub selected_color: String,
    pub use_random: bool,
    /// Whether the window shows the plate full screen.
    pub plate_fullscreen: bool,
}

/// The message logged when full screen is switched.
pub open spec fn fullscreen_message(source: Seq<char>, enabled: bool) -> Seq<char> {
    source + " 全屏："@ + (if enabled {
        "开启"@
    } else {
        "关闭"@
    })
}

/// The message logged when the API starts listening on `port`.
pub open spec fn listening_message(port: u16) -> Seq<char> {
    "API 已监听 0.0.0.0:"@ + decimal(port as nat) + "（局域网可访问）"@
}

/// The message logged for one reachable address.
pub open spec fn lan_url_message(url: Seq<char>) -> Seq<char> {
    "局域网地址 "@ + url
}

/// The message logged when the API fails to start.
pub open spec fn failure_message(err: Seq<char>) -> Seq<char> {
    "API 启动失败: "@ + err
}

/// `after` is `before` with `record` generated: the counter advanced, the
/// record latest, its copy without inline image first in the history (which
/// keeps the newest [`HISTORY_LIMIT`]), everything else unchanged.
pub open spec fn records_plate(before: SharedData, record: PlateRecordView, after: SharedData) -> bool {
    &&& after.generation_seq == before.generation_seq + 1
    &&& after.latest_view() == Some(record)
    &&& after.history_view() == bounded(
        seq![record.without_image()] + before.history_view(),
        HISTORY_LIMIT as nat,
    )
    &&& after.history@.len() <= HISTORY_LIMIT
    &&& after.same_but_plates(&before)
}

/// `after` is `before` with full screen set to `enabled` by `source`:
/// `changed` tells whether it was different; a change is logged, no change
/// leaves everything as it was.
pub open spec fn switches_fullscreen(
    before: SharedData,
    enabled: bool,
    source: Seq<char>,
    after: SharedData,
    changed: bool,
) -> bool {
    &&& changed == (before.plate_fullscreen != enabled)
    &&& after.plate_fullscreen == enabled
    &&& !changed ==> after == before
    &&& changed ==> after.log_messages() == bounded(
        seq![fullscreen_message(source, enabled)] + before.log_messages(),
        LOG_LIMIT as nat,
    )
    &&& changed ==> after.api_logs@.len() <= LOG_LIMIT
    &&& changed ==> after.same_but_logs_and_view(&before)
}

/// `after` is `before` with `entry` put at the front of the API log, which
/// keeps the newest [`LOG_LIMIT`] entries; everything else unchanged.
pub open spec fn logs_entry(before: SharedData, entry: ApiLogEntry, after: SharedData) -> bool {
    &&& after.api_logs@ == bounded(seq![entry] + before.api_logs@, LOG_LIMIT as nat)
    &&& after.same_but_logs(&before)
}

/// Drops elements from the back of `q` until at most `limit` remain.
fn keep_first<T>(q: &mut VecDeque<T>, limit: usize)
    ensures
        final(q)@ == bounded(old(q)@, limit as nat),
{
    while q.len() > limit
        invariant
            q@ == old(q)@.take(q@.len() as int),
            q@.len() <= old(q)@.len(),
            q@.len() == old(q)@.len() || q@.len() >= limit,
        decreases q@.len(),
    {
        q.pop_back();
    }
    proof {
        if old(q)@.len() <= limit {
            assert(q@ =~= old(q)@);
        }
    }
}

impl SharedData {
    /// The history as record views, newest first.
    pub open spec fn history_view(&self) -> Seq<PlateRecordView> {
        self.history@.map_values(|r: PlateRecord| r@)
    }

    /// The logged messages, newest first.
    pub open spec fn log_messages(&self) -> Seq<Seq<char>> {
        self.api_logs@.map_values(|e: ApiLogEntry| e.message@)
    }

    /// The latest record as a view.
    pub open spec fn latest_view(&self) -> Option<PlateRecordView> {
        match self.latest {
            Some(r) => Some(r@),
            None => None,
        }
    }

    /// Every field but the log and the full-screen flag is the same.
    pub open spec fn same_but_logs_and_view(&self, other: &SharedData) -> bool {
        &&& self.latest == other.latest
        &&& self.history == other.history
        &&& self.api_port == other.api_port
        &&& self.api_listening == other.api_listening
        &&& self.api_error == other.api_error
        &&& self.lan_urls == other.lan_urls
        &&& self.generation_seq == other.generation_seq
        &&& self.custom_plate == other.custom_plate
        &&& self.selected_color == other.selected_color
        &&& self.use_random == other.use_random
    }

    /// Every field but the log is the same in `self` and `other`.
    pub open spec fn same_but_logs(&self, other: &SharedData) -> bool {
        self.same_but_logs_and_view(other) && self.plate_fullscreen == other.plate_fullscreen
    }

    /// The fields that generating a plate does not touch are the same.
    pub open spec fn same_but_plates(&self, other: &SharedData) -> bool {
        &&& self.api_logs == other.api_logs
        &&& self.api_port == other.api_port
        &&& self.api_listening == other.api_listening
        &&& self.api_error == other.api_error
        &&& self.lan_urls == other.lan_urls
        &&& self.custom_plate == other.custom_plate
        &&& self.selected_color == other.selected_color
        &&& self.use_random == other.use_random
        &&& self.plate_fullscreen == other.plate_fullscreen
    }

    /// The bounds that every state keeps: at most [`HISTORY_LIMIT`]
    /// records and [`LOG_LIMIT`] log entries.
    pub open spec fn within_limits(&self) -> bool {
        self.history@.len() <= HISTORY_LIMIT && self.api_logs@.len() <= LOG_LIMIT
    }

    /// The initial state: nothing generated, the API not yet listening,
    /// `粤C12345` and `blue` preselected, random generation on.
    pub fn new(port: u16) -> (d: SharedData)
        ensures
            d.latest is None,
            d.history@.len() == 0,
            d.api_logs@.len() == 0,
            d.api_port == port,
            !d.api_listening,
            d.api_error is None,
            d.lan_urls@.len() == 0,
            d.generation_seq == 0,
            d.custom_plate@ == "粤C12345"@,
            d.selected_color@ == "blue"@,
            d.use_random,
            !d.plate_fullscreen,
            d.within_limits(),
            is_initial(d),
    {
        SharedData {
            latest: None,
            history: VecDeque::new(),
            api_logs: VecDeque::new(),
            api_port: port,
            api_listening: false,
            api_error: None,
            lan_urls: Vec::new(),
            generation_seq: 0,
            custom_plate: owned("粤C12345"),
            selected_color: owned("blue"),
            use_random: true,
            plate_fullscreen: false,
        }
    }

    /// Records a newly generated plate: it becomes the latest, its copy
    /// without the inline image goes to the front of the history (which
    /// keeps the newest [`HISTORY_LIMIT`]), and the generation counter
    /// advances.
    pub fn push_record(&mut self, record: PlateRecord)
        requires
            old(self).generation_seq < u64::MAX,
        ensures
            records_plate(*old(self), record@, *final(self)),
    {
        self.generation_seq = self.generation_seq + 1;
        let hist = record.without_image();
        let ghost pushed = seq![hist] + self.history@;
        self.history.push_front(hist);
        keep_first(&mut self.history, HISTORY_LIMIT);
        proof {
            assert(pushed.map_values(|r: PlateRecord| r@) =~= seq![record@.without_image()]
                + old(self).history_view());
            assert(bounded(pushed, HISTORY_LIMIT as nat).map_values(|r: PlateRecord| r@)
                =~= bounded(pushed.map_values(|r: PlateRecord| r@), HISTORY_LIMIT as nat));
        }
        self.latest = Some(record);
    }

    /// Adds `message`, stamped with `now`, to the front of the API log; the
    /// log keeps the newest [`LOG_LIMIT`] entries.
    pub fn log_at(&mut self, message: String, now: LocalTime)
        ensures
            logs_entry(*old(self), (ApiLogEntry { time: now, message }), *final(self)),
            final(self).log_messages() == bounded(
                seq![message@] + old(self).log_messages(),
                LOG_LIMIT as nat,
            ),
            final(self).api_logs@.len() <= LOG_LIMIT,
            old(self).within_limits() ==> final(self).within_limits(),
    {
        let ghost m = message@;
        let entry = ApiLogEntry { time: now, message };
        let ghost pushed = seq![entry] + self.api_logs@;
        self.api_logs.push_front(entry);
        keep_first(&mut self.api_logs, LOG_LIMIT);
        proof {
            assert(pushed.map_values(|e: ApiLogEntry| e.message@) =~= seq![m]
                + old(self).log_messages());
            assert(bounded(pushed, LOG_LIMIT as nat).map_values(|e: ApiLogEntry| e.message@)
                =~= bounded(pushed.map_values(|e: ApiLogEntry| e.message@), LOG_LIMIT as nat));
        }
    }

    /// Adds `message` to the front of the API log, stamped with the current
    /// time read from the local clock; the log keeps the newest
    /// [`LOG_LIMIT`] entries.
    pub fn log(&mut self, message: String)
        ensures
            logs_entry(
                *old(self),
                (ApiLogEntry { time: final(self).api_logs@[0].time, message }),
                *final(self),
            ),
            final(self).api_logs@[0].time.well_formed(),
            final(self).log_messages() == bounded(
                seq![message@] + old(self).log_messages(),
                LOG_LIMIT as nat,
            ),
            final(self).api_logs@.len() <= LOG_LIMIT,
            old(self).within_limits() ==> final(self).within_limits(),
            final(self).same_but_logs(old(self)),
    {
        let now = local_now();
        self.log_at(message, now);
        proof {
            let e = ApiLogEntry { time: now, message };
            assert((seq![e] + old(self).api_logs@)[0] == e);
            assert(self.api_logs@[0] == e);
        }
    }

    /// Switches the full-screen view. When it already is as asked, nothing
    /// changes and `false` comes back; otherwise the switch is logged with
    /// its `source` and `true` comes back, telling the caller to announce it.
    pub fn set_fullscreen(&mut self, enabled: bool, source: &str) -> (changed: bool)
        ensures
            switches_fullscreen(*old(self), enabled, source@, *final(self), changed),
    {
        if self.plate_fullscreen == enabled {
            return false;
        }
        self.plate_fullscreen = enabled;
        let mut m = owned(source);
        m.append(" 全屏：");
        m.append(if enabled {
            "开启"
        } else {
            "关闭"
        });
        self.log(m);
        true
    }

    /// Records that the API listens on `port`, reachable at `lan_urls`,
    /// and logs the port and each address.
    pub fn mark_listening(&mut self, port: u16, lan_urls: Vec<String>)
        ensures
            final(self).api_listening,
            final(self).api_error is None,
            final(self).api_port == port,
            final(self).lan_urls@ == lan_urls@,
            final(self).log_messages() == bounded(
                lan_urls@.map_values(|u: String| lan_url_message(u@)).reverse() + seq![
                    listening_message(port),
                ] + old(self).log_messages(),
                LOG_LIMIT as nat,
            ),
            final(self).latest == old(self).latest,
            final(self).history == old(self).history,
            final(self).generation_seq == old(self).generation_seq,
            final(self).plate_fullscreen == old(self).plate_fullscreen,
            final(self).custom_plate == old(self).custom_plate,
            final(self).selected_color == old(self).selected_color,
            final(self).use_random == old(self).use_random,
            old(self).within_limits() ==> final(self).within_limits(),
    {
        self.api_listening = true;
        self.api_error = None;
        self.api_port = port;
        let mut first = owned("API 已监听 0.0.0.0:");
        let digits = decimal_string(port as u64);
        first.append(digits.as_str());
        first.append("（局域网可访问）");
        self.log(first);
        let ghost base = self.log_messages();
        let mut i: usize = 0;
        while i < lan_urls.len()
            invariant
                i <= lan_urls.len(),
                self.log_messages() == bounded(
                    lan_urls@.take(i as int).map_values(|u: String| lan_url_message(u@)).reverse()
                        + base,
                    LOG_LIMIT as nat,
                ),
                self.api_listening,
                self.api_error is None,
                self.api_port == port,
                self.latest == old(self).latest,
                self.history == old(self).history,
                self.generation_seq == old(self).generation_seq,
                self.plate_fullscreen == old(self).plate_fullscreen,
                self.custom_plate == old(self).custom_plate,
                self.selected_color == old(self).selected_color,
                self.use_random == old(self).use_random,
                self.api_logs@.len() <= LOG_LIMIT,
            decreases lan_urls.len() - i,
        {
            let mut m = owned("局域网地址 ");
            m.append(lan_urls[i].as_str());
            let ghost before = self.log_messages();
            self.log(m);
            proof {
                let f = |u: String| lan_url_message(u@);
                let prev = lan_urls@.take(i as int).map_values(f).reverse() + base;
                let next = lan_urls@.take(i + 1).map_values(f).reverse() + base;
                assert(lan_urls@.take(i + 1).map_values(f).reverse() =~= seq![
                    lan_url_message(lan_urls@[i as int]@),
                ] + lan_urls@.take(i as int).map_values(f).reverse());
                assert(next =~= seq![lan_url_message(lan_urls@[i as int]@)] + prev);
                lemma_bounded_push_front(prev, lan_url_message(lan_urls@[i as int]@), LOG_LIMIT as nat);
            }
            i = i + 1;
        }
        proof {
            assert(lan_urls@.take(lan_urls@.len() as int) =~= lan_urls@);
        }
        self.lan_urls = lan_urls;
    }

    /// Records that the API could not start: not listening, the error kept
    /// and logged.
    pub fn mark_failed(&mut self, err: String)
        ensures
            !final(self).api_listening,
            opt_view(final(self).api_error) == Some(err@),
            final(self).log_messages() == bounded(
                seq![failure_message(err@)] + old(self).log_messages(),
                LOG_LIMIT as nat,
            ),
            final(self).latest == old(self).latest,
            final(self).history == old(self).history,
            final(self).generation_seq == old(self).generation_seq,
            final(self).plate_fullscreen == old(self).plate_fullscreen,
            final(self).lan_urls == old(self).lan_urls,
            final(self).api_port == old(self).api_port,
            final(self).custom_plate == old(self).custom_plate,
            final(self).selected_color == old(self).selected_color,
            final(self).use_random == old(self).use_random,
            old(self).within_limits() ==> final(self).within_limits(),
    {
        self.api_listening = false;
        let mut m = owned("API 启动失败: ");
        m.append(err.as_str());
        self.api_error = Some(err);
        self.log(m);
    }
}

/// Keeping the first `limit` after putting `x` in front of an already kept
/// prefix is the same as keeping the first `limit` of the whole.
pub proof fn lemma_bounded_push_front<T>(s: Seq<T>, x: T, limit: nat)
    ensures
        bounded(seq![x] + bounded(s, limit), limit) == bounded(seq![x] + s, limit),
{
    if s.len() > limit {
        if limit > 0 {
            assert((seq![x] + s.take(limit as int)).take(limit as int) =~= (seq![x] + s).take(
                limit as int,
            ));
        } else {
            assert((seq![x] + s.take(0)).take(0) =~= (seq![x] + s).take(0));
        }
    }
}


/// After a plate is recorded, reading the latest record gives it back, and
/// the history opens with it (without its inline image).
pub proof fn lemma_recorded_plate_reads_back(
    before: SharedData,
    record: PlateRecordView,
    after: SharedData,
)
    requires
        records_plate(before, record, after),
    ensures
        after.latest_view() == Some(record),
        after.history_view().len() >= 1,
        after.history_view()[0] == record.without_image(),
{
    let pushed = seq![record.without_image()] + before.history_view();
    assert(pushed[0] == record.without_image());
}

/// Recording a plate moves every earlier history record one place back,
/// dropping only what falls beyond [`HISTORY_LIMIT`].
pub proof fn lemma_history_shifts(before: SharedData, record: PlateRecordView, after: SharedData)
    requires
        records_plate(before, record, after),
    ensures
        after.history_view().len() == if before.history_view().len() + 1 > HISTORY_LIMIT {
            HISTORY_LIMIT as nat
        } else {
            before.history_view().len() + 1
        },
        forall|i: int|
            0 <= i < before.history_view().len() && i + 1 < HISTORY_LIMIT ==> after.history_view()[i
                + 1] == #[trigger] before.history_view()[i],
{
    let pushed = seq![record.without_image()] + before.history_view();
    assert forall|i: int|
        0 <= i < before.history_view().len() && i + 1 < HISTORY_LIMIT implies after.history_view()[i
        + 1] == #[trigger] before.history_view()[i] by {
        assert(pushed[i + 1] == before.history_view()[i]);
    }
}

/// Recording a plate keeps the state within its limits.
pub proof fn lemma_record_keeps_limits(before: SharedData, record: PlateRecordView, after: SharedData)
    requires
        records_plate(before, record, after),
        before.within_limits(),
    ensures
        after.within_limits(),
{
}

/// Switching full screen keeps the state within its limits.
pub proof fn lemma_switch_keeps_limits(
    before: SharedData,
    enabled: bool,
    source: Seq<char>,
    after: SharedData,
    changed: bool,
)
    requires
        switches_fullscreen(before, enabled, source, after, changed),
        before.within_limits(),
    ensures
        after.within_limits(),
{
}

/// Asking twice for the same full-screen state changes nothing the second
/// time: no switch is reported and the state stays as the first left it.
pub proof fn lemma_fullscreen_idempotent(
    s0: SharedData,
    enabled: bool,
    source1: Seq<char>,
    s1: SharedData,
    changed1: bool,
    source2: Seq<char>,
    s2: SharedData,
    changed2: bool,
)
    requires
        switches_fullscreen(s0, enabled, source1, s1, changed1),
        switches_fullscreen(s1, enabled, source2, s2, changed2),
    ensures
        !changed2,
        s2 == s1,
        s2.plate_fullscreen == enabled,
{
}

/// A state as [`SharedData::new`] makes it: nothing recorded, an empty
/// log, the counter at zero.
pub open spec fn is_initial(d: SharedData) -> bool {
    &&& d.latest is None
    &&& d.history@.len() == 0
    &&& d.api_logs@.len() == 0
    &&& d.generation_seq == 0
}

/// One step from `before` to `after`: a plate recorded (`pushed`) or an
/// entry logged.
pub open spec fn push_or_log(before: SharedData, after: SharedData, pushed: bool) -> bool {
    if pushed {
        exists|r: PlateRecordView| #[trigger] records_plate(before, r, after)
    } else {
        exists|e: ApiLogEntry| #[trigger] logs_entry(before, e, after)
    }
}

/// How many of `steps` record a plate.
pub open spec fn count_pushes(steps: Seq<bool>) -> nat
    decreases steps.len(),
{
    if steps.len() == 0 {
        0
    } else {
        count_pushes(steps.drop_last()) + if steps.last() {
            1nat
        } else {
            0nat
        }
    }
}

/// What holds of every state reached after `pushes` recorded plates: the
/// limits are kept, no history record holds an inline image, the counter
/// equals the number of recorded plates, and the history is empty exactly
/// when there is no latest record and otherwise opens with it (without
/// its image).
pub open spec fn consistent(d: SharedData, pushes: nat) -> bool {
    &&& d.within_limits()
    &&& forall|i: int| 0 <= i < d.history@.len() ==> (#[trigger] d.history@[i]).image_base64 is None
    &&& d.generation_seq == pushes
    &&& d.latest is None <==> d.history@.len() == 0
    &&& d.latest matches Some(r) ==> d.history@.len() > 0 && d.history@[0]@ == r@.without_image()
}

proof fn lemma_push_keeps_consistent(
    before: SharedData,
    record: PlateRecordView,
    after: SharedData,
    pushes: nat,
)
    requires
        consistent(before, pushes),
        records_plate(before, record, after),
    ensures
        consistent(after, pushes + 1),
{
    let pushed = seq![record.without_image()] + before.history_view();
    assert(after.history@.len() == after.history_view().len());
    assert(after.history_view().len() > 0);
    assert forall|i: int| 0 <= i < after.history@.len() implies (
    #[trigger] after.history@[i]).image_base64 is None by {
        assert(after.history_view()[i] == after.history@[i]@);
        assert(after.history_view()[i] == pushed[i]);
        if i > 0 {
            assert(pushed[i] == before.history_view()[i - 1]);
            assert(before.history_view()[i - 1] == before.history@[i - 1]@);
        }
    }
    assert(after.history_view()[0] == after.history@[0]@);
}

proof fn lemma_log_keeps_consistent(
    before: SharedData,
    entry: ApiLogEntry,
    after: SharedData,
    pushes: nat,
)
    requires
        consistent(before, pushes),
        logs_entry(before, entry, after),
    ensures
        consistent(after, pushes),
{
}

/// Every state reached from a fresh one by any sequence of recorded plates
/// and log entries keeps at most [`HISTORY_LIMIT`] records and
/// [`LOG_LIMIT`] log entries, holds no inline image in its history, counts
/// exactly the plates recorded, and has an empty history exactly when it has
/// no latest record, the history otherwise opening with the latest record.
pub proof fn lemma_reachable_states(states: Seq<SharedData>, pushed: Seq<bool>)
    requires
        states.len() == pushed.len() + 1,
        is_initial(states[0]),
        forall|i: int|
            0 <= i < pushed.len() ==> push_or_log(states[i], states[i + 1], #[trigger] pushed[i]),
    ensures
        consistent(states.last(), count_pushes(pushed)),
    decreases pushed.len(),
{
    if pushed.len() > 0 {
        let n = pushed.len() - 1;
        let prefix = states.drop_last();
        assert forall|i: int| 0 <= i < pushed.drop_last().len() implies push_or_log(
            prefix[i],
            prefix[i + 1],
            #[trigger] pushed.drop_last()[i],
        ) by {
            assert(pushed.drop_last()[i] == pushed[i]);
            assert(push_or_log(states[i], states[i + 1], pushed[i]));
        }
        lemma_reachable_states(prefix, pushed.drop_last());
        assert(prefix.last() == states[n]);
        assert(push_or_log(states[n], states[n + 1], pushed[n]));
        if pushed[n] {
            let r = choose|r: PlateRecordView| #[trigger] records_plate(states[n], r, states[n + 1]);
            lemma_push_keeps_consistent(states[n], r, states[n + 1], count_pushes(pushed.drop_last()));
        } else {
            let e = choose|e: ApiLogEntry| #[trigger] logs_entry(states[n], e, states[n + 1]);
            lemma_log_keeps_consistent(states[n], e, states[n + 1], count_pushes(pushed.drop_last()));
        }
    }
}

} // verus!
