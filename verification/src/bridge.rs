//! The local HTTP bridge's own logic: usage accounting, the activity log,
//! routing, authorization, the HTTP and SSE framing, and the responses it
//! sends.

use vstd::prelude::*;

use crate::codex::TokenUsage;
use crate::json::{Json, JsonV};
use crate::text;

verus! {

/// The most activity-log lines kept in normal mode.
pub const MAX_RECENT_LOGS: usize = 40;

/// The most activity-log lines kept in dev mode.
pub const MAX_RECENT_LOGS_DEV: usize = 200;

/// The longest log line, in characters, before it is cut.
pub const MAX_LOG_LINE_CHARS: usize = 2_048;

/// The longest request body, in characters, shown in the dev log.
pub const MAX_DEV_BODY_LOG_CHARS: usize = 4_096;

/// Counters and recent activity, shown in the panel.
#[derive(Clone, Debug)]
pub struct UsageSnapshot {
    pub request_count: u64,
    pub active_requests: u64,
    pub last_duration_ms: u64,
    pub total_duration_ms: u64,
    pub last_usage: TokenUsage,
    pub total_usage: TokenUsage,
    pub last_error: Option<String>,
    pub recent_logs: Vec<String>,
}

impl Default for UsageSnapshot {
    fn default() -> (r: Self)
        ensures
            r.request_count == 0,
            r.active_requests == 0,
            r.last_duration_ms == 0,
            r.total_duration_ms == 0,
            r.last_usage == crate::codex::zero_usage(),
            r.total_usage == crate::codex::zero_usage(),
            r.last_error is None,
            r.recent_logs@.len() == 0,
    {
        UsageSnapshot {
            request_count: 0,
            active_requests: 0,
            last_duration_ms: 0,
            total_duration_ms: 0,
            last_usage: TokenUsage::default(),
            total_usage: TokenUsage::default(),
            last_error: None,
            recent_logs: Vec::new(),
        }
    }
}

/// What the panel shows about the bridge.
#[derive(Clone, Debug)]
pub struct BridgeStatus {
    pub running: bool,
    pub port: u16,
    pub base_url: String,
    pub usage: UsageSnapshot,
}

/// The model of an optional string.
pub open spec fn opt_chars(o: Option<String>) -> Option<Seq<char>> {
    match o {
        Some(s) => Some(s@),
        None => None,
    }
}

/// A request has started.
pub fn increment_active(usage: &mut UsageSnapshot)
    requires
        old(usage).active_requests < u64::MAX,
    ensures
        final(usage).active_requests == old(usage).active_requests + 1,
        *final(usage) == (UsageSnapshot { active_requests: final(usage).active_requests, ..*old(usage) }),
{
    usage.active_requests = usage.active_requests + 1;
}

/// The number of requests in flight once one of them ends (never below zero).
pub open spec fn ended_active(active: u64) -> u64 {
    if active > 0 {
        (active - 1) as u64
    } else {
        0
    }
}

/// A request that starts and then ends leaves the number of requests in
/// flight as it found it.
pub proof fn law_start_then_end_restores_active(active: u64)
    requires
        active < u64::MAX,
    ensures
        ended_active((active + 1) as u64) == active,
{
}

/// A request has ended after `duration_ms`, with the error it failed with, if any.
/// An empty error message counts as no error.
pub fn decrement_active(usage: &mut UsageSnapshot, duration_ms: u64, error: Option<String>)
    requires
        old(usage).request_count < u64::MAX,
        old(usage).total_duration_ms + duration_ms <= u64::MAX,
    ensures
        final(usage).request_count == old(usage).request_count + 1,
        final(usage).active_requests == ended_active(old(usage).active_requests),
        final(usage).last_duration_ms == duration_ms,
        final(usage).total_duration_ms == old(usage).total_duration_ms + duration_ms,
        opt_chars(final(usage).last_error) == match opt_chars(error) {
            Some(e) => if e.len() == 0 { None } else { Some(e) },
            None => None,
        },
        final(usage).last_usage == old(usage).last_usage,
        final(usage).total_usage == old(usage).total_usage,
        final(usage).recent_logs == old(usage).recent_logs,
{
    usage.request_count = usage.request_count + 1;
    usage.active_requests = if usage.active_requests > 0 { usage.active_requests - 1 } else { 0 };
    usage.last_duration_ms = duration_ms;
    usage.total_duration_ms = usage.total_duration_ms + duration_ms;
    usage.last_error = match error {
        Some(message) => if message.as_str().is_empty() {
            None
        } else {
            Some(message)
        },
        None => None,
    };
}

/// Whether adding `u` to the running totals stays within `u64`.
pub open spec fn totals_fit(total: TokenUsage, u: TokenUsage) -> bool {
    &&& total.input_tokens + u.input_tokens <= u64::MAX
    &&& total.cached_input_tokens + u.cached_input_tokens <= u64::MAX
    &&& total.output_tokens + u.output_tokens <= u64::MAX
    &&& total.reasoning_output_tokens + u.reasoning_output_tokens <= u64::MAX
}

/// The running totals after one more turn.
pub open spec fn add_usage(total: TokenUsage, u: TokenUsage) -> TokenUsage {
    TokenUsage {
        input_tokens: (total.input_tokens + u.input_tokens) as u64,
        cached_input_tokens: (total.cached_input_tokens + u.cached_input_tokens) as u64,
        output_tokens: (total.output_tokens + u.output_tokens) as u64,
        reasoning_output_tokens: (total.reasoning_output_tokens + u.reasoning_output_tokens) as u64,
    }
}

/// Adding nothing changes no total, and the totals start from nothing: the
/// first turn's tokens become the totals.
pub proof fn law_add_usage_identity(total: TokenUsage)
    ensures
        add_usage(total, crate::codex::zero_usage()) == total,
        add_usage(crate::codex::zero_usage(), total) == total,
{
}

/// Turns add up in any grouping: recording `a` and then `b` gives the same
/// totals as recording their sum at once.
pub proof fn law_add_usage_associative(total: TokenUsage, a: TokenUsage, b: TokenUsage)
    requires
        totals_fit(total, a),
        totals_fit(a, b),
        totals_fit(add_usage(total, a), b),
    ensures
        add_usage(add_usage(total, a), b) == add_usage(total, add_usage(a, b)),
{
}

/// A Codex turn succeeded: it becomes the last turn, clears the last error,
/// and its tokens join the totals.
pub fn record_success(usage: &mut UsageSnapshot, token_usage: &TokenUsage, duration_ms: u64)
    requires
        totals_fit(old(usage).total_usage, *token_usage),
    ensures
        *final(usage) == (UsageSnapshot {
            last_duration_ms: duration_ms,
            last_usage: *token_usage,
            last_error: None,
            total_usage: add_usage(old(usage).total_usage, *token_usage),
            ..*old(usage)
        }),
{
    usage.last_duration_ms = duration_ms;
    usage.last_usage = *token_usage;
    usage.last_error = None;
    usage.total_usage.input_tokens = usage.total_usage.input_tokens + token_usage.input_tokens;
    usage.total_usage.cached_input_tokens = usage.total_usage.cached_input_tokens
        + token_usage.cached_input_tokens;
    usage.total_usage.output_tokens = usage.total_usage.output_tokens + token_usage.output_tokens;
    usage.total_usage.reasoning_output_tokens = usage.total_usage.reasoning_output_tokens
        + token_usage.reasoning_output_tokens;
}

/// `text` cut to `max_chars` characters, marked when cut.
pub open spec fn truncated_log(t: Seq<char>, max_chars: nat) -> Seq<char> {
    if t.len() <= max_chars {
        t
    } else {
        t.take(max_chars as int) + "... [truncated]"@
    }
}

/// Cuts a log text to `max_chars` characters (`truncate_log_text`).
pub fn truncate_log_text(t: &str, max_chars: usize) -> (r: String)
    ensures
        r@ == truncated_log(t@, max_chars as nat),
{
    let chars = text::chars_of(t);
    if chars.len() <= max_chars {
        return text::owned(t);
    }
    let mut r = text::string_from_chars(&chars.as_slice()[0..max_chars]);
    text::push_str(&mut r, "... [truncated]");
    proof {
        assert(chars@.subrange(0, max_chars as int) =~= t@.take(max_chars as int));
    }
    r
}

/// `n` as two digits, for `n < 100`.
pub open spec fn two_digits(n: nat) -> Seq<char> {
    seq![text::digit_char(n / 10), text::digit_char(n % 10)]
}

/// The wall-clock time of day (UTC) of a UNIX time, as `HH:MM:SS`.
pub open spec fn log_timestamp(seconds: nat) -> Seq<char> {
    two_digits((seconds / 3600) % 24) + seq![':'] + two_digits((seconds / 60) % 60) + seq![':']
        + two_digits(seconds % 60)
}

fn push_two_digits(out: &mut String, n: u64)
    requires
        n < 100,
    ensures
        final(out)@ == old(out)@ + two_digits(n as nat),
{
    text::push_char(out, text::digit(n / 10));
    text::push_char(out, text::digit(n % 10));
    assert(final(out)@ =~= old(out)@ + two_digits(n as nat));
}

/// The `HH:MM:SS` stamp of a UNIX time (`format_log_timestamp`).
pub fn format_log_timestamp(seconds: u64) -> (r: String)
    ensures
        r@ == log_timestamp(seconds as nat),
{
    let mut r = String::new();
    push_two_digits(&mut r, (seconds / 3600) % 24);
    text::push_char(&mut r, ':');
    push_two_digits(&mut r, (seconds / 60) % 60);
    text::push_char(&mut r, ':');
    push_two_digits(&mut r, seconds % 60);
    assert(r@ =~= log_timestamp(seconds as nat));
    r
}

/// How many log lines are kept.
pub open spec fn log_limit(dev_mode: bool) -> nat {
    if dev_mode {
        MAX_RECENT_LOGS_DEV as nat
    } else {
        MAX_RECENT_LOGS as nat
    }
}

/// The stamped form of a log line.
pub open spec fn stamped_line(line: Seq<char>, seconds: nat) -> Seq<char> {
    log_timestamp(seconds) + seq![' '] + truncated_log(line, MAX_LOG_LINE_CHARS as nat)
}

/// The character sequences of a list of strings.
pub open spec fn log_views(logs: Seq<String>) -> Seq<Seq<char>> {
    Seq::new(logs.len(), |i: int| logs[i]@)
}

/// The log after one more line: the oldest lines go once the limit is passed.
pub open spec fn appended_logs(logs: Seq<Seq<char>>, stamped: Seq<char>, dev_mode: bool) -> Seq<
    Seq<char>,
> {
    crate::codex::last_n(logs.push(stamped), log_limit(dev_mode))
}

/// The activity log never holds more lines than its limit, its newest line
/// is the one just added, and below the limit nothing is dropped.
pub proof fn law_log_is_bounded(logs: Seq<Seq<char>>, stamped: Seq<char>, dev_mode: bool)
    ensures
        appended_logs(logs, stamped, dev_mode).len() <= log_limit(dev_mode),
        appended_logs(logs, stamped, dev_mode).last() == stamped,
        logs.len() < log_limit(dev_mode) ==> appended_logs(logs, stamped, dev_mode) == logs.push(
            stamped,
        ),
        logs.len() <= log_limit(dev_mode) ==> appended_logs(logs, stamped, dev_mode).len() == if logs.len() < log_limit(dev_mode) {
            logs.len() + 1
        } else {
            logs.len()
        },
{
    let all = logs.push(stamped);
    let n = log_limit(dev_mode);
    if all.len() > n {
        assert(all.skip(all.len() - n).last() == all.last());
    }
}

/// Adds a line to the activity log, stamped with the time of day of
/// `now_seconds`, and returns the stamped line.
pub fn append_log(usage: &mut UsageSnapshot, line: &str, dev_mode: bool, now_seconds: u64) -> (r:
    String)
    ensures
        r@ == stamped_line(line@, now_seconds as nat),
        log_views(final(usage).recent_logs@) == appended_logs(
            log_views(old(usage).recent_logs@),
            r@,
            dev_mode,
        ),
        *final(usage) == (UsageSnapshot { recent_logs: final(usage).recent_logs, ..*old(usage) }),
{
    let cut = truncate_log_text(line, MAX_LOG_LINE_CHARS);
    let mut stamped = format_log_timestamp(now_seconds);
    text::push_char(&mut stamped, ' ');
    text::push_str(&mut stamped, cut.as_str());
    let ghost before = log_views(usage.recent_logs@);
    let ghost sv = stamped@;
    usage.recent_logs.push(stamped.clone());
    assert(log_views(usage.recent_logs@) =~= before.push(sv));
    let max_logs = if dev_mode { MAX_RECENT_LOGS_DEV } else { MAX_RECENT_LOGS };
    if usage.recent_logs.len() > max_logs {
        let overflow = usage.recent_logs.len() - max_logs;
        let ghost full = log_views(usage.recent_logs@);
        let kept = usage.recent_logs.split_off(overflow);
        usage.recent_logs = kept;
        assert(log_views(usage.recent_logs@) =~= full.skip(overflow as int));
    }
    stamped
}

/// Adds a line to the activity log (`append_bridge_log`).
pub fn append_bridge_log(usage: &mut UsageSnapshot, line: &str, dev_mode: bool, now_seconds: u64)
    ensures
        log_views(final(usage).recent_logs@) == appended_logs(
            log_views(old(usage).recent_logs@),
            stamped_line(line@, now_seconds as nat),
            dev_mode,
        ),
        *final(usage) == (UsageSnapshot { recent_logs: final(usage).recent_logs, ..*old(usage) }),
{
    let _ = append_log(usage, line, dev_mode, now_seconds);
}

/// The local address Cursor can use (`base_url`).
pub open spec fn base_url_text(port: u16) -> Seq<char> {
    "http://127.0.0.1:"@ + text::decimal(port as nat) + "/v1"@
}

/// The OpenAI-compatible base URL of the bridge on `port`.
pub fn base_url(port: u16) -> (r: String)
    ensures
        r@ == base_url_text(port),
{
    let mut r = text::owned("http://127.0.0.1:");
    text::push_decimal(&mut r, port as u64);
    text::push_str(&mut r, "/v1");
    r
}


/// The largest request body, in bytes, the bridge reads.
pub const MAX_BODY_BYTES: usize = 16_777_216;

/// The four routes the bridge tells apart.
#[derive(Clone, Copy, Debug, PartialEq, Eq)]
pub enum Route {
    Healthz,
    Models,
    ChatCompletions,
    NotFound,
}

pub open spec fn route_label(r: Route) -> Seq<char> {
    match r {
        Route::Healthz => "healthz"@,
        Route::Models => "models"@,
        Route::ChatCompletions => "chat"@,
        Route::NotFound => "404"@,
    }
}

impl Route {
    /// The short name used in the activity log.
    pub fn label(self) -> (r: &'static str)
        ensures
            r@ == route_label(self),
    {
        match self {
            Route::Healthz => "healthz",
            Route::Models => "models",
            Route::ChatCompletions => "chat",
            Route::NotFound => "404",
        }
    }
}

/// The path with its query string and trailing slashes removed.
pub open spec fn route_path(path: Seq<char>) -> Seq<char> {
    text::trim_end_char(text::before_char(path, '?'), '/')
}

/// Which route a request line asks for.
pub open spec fn route_of(method: Seq<char>, path: Seq<char>) -> Route {
    let p = route_path(path);
    if method == "GET"@ && p == "/healthz"@ {
        Route::Healthz
    } else if method == "GET"@ && (p == "/v1/models"@ || p == "/models"@) {
        Route::Models
    } else if method == "POST"@ && (p == "/v1/chat/completions"@ || p == "/chat/completions"@) {
        Route::ChatCompletions
    } else {
        Route::NotFound
    }
}

/// A query string and a trailing slash do not change the route: the bridge
/// answers `/v1/models?x=1` and `/v1/models/` as it answers `/v1/models`.
pub proof fn law_route_ignores_query_and_trailing_slash(
    method: Seq<char>,
    path: Seq<char>,
    query: Seq<char>,
)
    requires
        text::index_of_char(path, '?') is None,
    ensures
        route_of(method, path + seq!['?'] + query) == route_of(method, path),
        route_of(method, path + seq!['/']) == route_of(method, path),
{
    text::lemma_index_of_char_concat(path, seq!['?'] + query, '?');
    assert(path + seq!['?'] + query =~= path + (seq!['?'] + query));
    assert(text::index_of_char(seq!['?'] + query, '?') == Some(0int));
    assert((path + seq!['?'] + query).take(path.len() as int) =~= path);
    text::lemma_index_of_char_concat(path, seq!['/'], '?');
    assert(text::index_of_char(seq!['/'], '?') is None) by {
        assert(seq!['/'].drop_first() =~= Seq::<char>::empty());
        assert(text::index_of_char(Seq::<char>::empty(), '?') is None);
        assert(seq!['/'][0] == '/');
    }
    assert((path + seq!['/']).drop_last() =~= path);
}

/// Picks the route for a method and path, ignoring any query string and
/// trailing slashes (`normalize_route`).
pub fn normalize_route(method: &str, path: &str) -> (r: Route)
    ensures
        r == route_of(method@, path@),
{
    let chars = text::chars_of(path);
    let end = match text::find_char(chars.as_slice(), '?', 0) {
        Some(i) => i,
        None => chars.len(),
    };
    proof {
        assert(chars@.skip(0) =~= chars@);
    }
    let before = &chars.as_slice()[0..end];
    assert(before@ =~= text::before_char(path@, '?'));
    let keep = text::trim_end_char_len(before, '/');
    let p = text::string_from_chars(&before[0..keep]);
    assert(p@ =~= route_path(path@));
    let p = p.as_str();
    if text::str_eq(method, "GET") && text::str_eq(p, "/healthz") {
        Route::Healthz
    } else if text::str_eq(method, "GET") && (text::str_eq(p, "/v1/models") || text::str_eq(
        p,
        "/models",
    )) {
        Route::Models
    } else if text::str_eq(method, "POST") && (text::str_eq(p, "/v1/chat/completions")
        || text::str_eq(p, "/chat/completions")) {
        Route::ChatCompletions
    } else {
        Route::NotFound
    }
}

/// Request headers by lower-case name; a later header of the same name wins.
#[derive(Debug)]
pub struct Headers {
    entries: Vec<(String, String)>,
}

/// The map that a list of (name, value) pairs builds, later pairs winning.
pub open spec fn entries_map(e: Seq<(Seq<char>, Seq<char>)>) -> Map<Seq<char>, Seq<char>>
    decreases e.len(),
{
    if e.len() == 0 {
        Map::empty()
    } else {
        entries_map(e.drop_last()).insert(e.last().0, e.last().1)
    }
}

pub open spec fn pair_views(e: Seq<(String, String)>) -> Seq<(Seq<char>, Seq<char>)> {
    Seq::new(e.len(), |i: int| (e[i].0@, e[i].1@))
}

impl View for Headers {
    type V = Map<Seq<char>, Seq<char>>;

    closed spec fn view(&self) -> Map<Seq<char>, Seq<char>> {
        entries_map(pair_views(self.entries@))
    }
}

impl Headers {
    /// No headers.
    pub fn new() -> (r: Headers)
        ensures
            r@ == Map::<Seq<char>, Seq<char>>::empty(),
    {
        let r = Headers { entries: Vec::new() };
        assert(pair_views(r.entries@) =~= Seq::<(Seq<char>, Seq<char>)>::empty());
        r
    }

    /// Sets `key` to `value`, replacing any earlier value.
    pub fn insert(&mut self, key: String, value: String)
        ensures
            final(self)@ == old(self)@.insert(key@, value@),
    {
        let ghost before = pair_views(self.entries@);
        let ghost kv = (key@, value@);
        self.entries.push((key, value));
        assert(pair_views(self.entries@).drop_last() =~= before);
    }

    /// The value stored under `key`.
    pub fn get(&self, key: &str) -> (r: Option<&str>)
        ensures
            match r {
                Some(v) => self@.contains_key(key@) && self@[key@] == v@,
                None => !self@.contains_key(key@),
            },
    {
        let ghost ev = pair_views(self.entries@);
        let mut i = self.entries.len();
        assert(ev.take(i as int) =~= ev);
        while i > 0
            invariant
                i <= self.entries.len(),
                ev == pair_views(self.entries@),
                self@ == entries_map(ev),
                entries_map(ev).contains_key(key@) == entries_map(ev.take(i as int)).contains_key(
                    key@,
                ),
                entries_map(ev).contains_key(key@) ==> entries_map(ev)[key@] == entries_map(
                    ev.take(i as int),
                )[key@],
            decreases i,
        {
            assert(ev.take(i as int).drop_last() =~= ev.take(i - 1));
            assert(ev.take(i as int).last() == ev[i - 1]);
            if text::str_eq(self.entries[i - 1].0.as_str(), key) {
                return Some(self.entries[i - 1].1.as_str());
            }
            i = i - 1;
        }
        assert(ev.take(0) =~= Seq::<(Seq<char>, Seq<char>)>::empty());
        None
    }
}

/// Whether the request carries `Authorization: Bearer <api_key>`.
pub open spec fn authorized(headers: Map<Seq<char>, Seq<char>>, api_key: Seq<char>) -> bool {
    headers.contains_key("authorization"@) && "Bearer "@.is_prefix_of(headers["authorization"@])
        && headers["authorization"@].skip("Bearer "@.len() as int) == api_key
}

/// The bridge lets a request through exactly when its `authorization`
/// header is `Bearer ` followed by the API key, nothing more and nothing less.
pub proof fn law_authorized_iff_exact_bearer(
    headers: Map<Seq<char>, Seq<char>>,
    api_key: Seq<char>,
)
    ensures
        authorized(headers, api_key) <==> (headers.contains_key("authorization"@)
            && headers["authorization"@] == "Bearer "@ + api_key),
{
    if headers.contains_key("authorization"@) {
        let v = headers["authorization"@];
        let p = "Bearer "@;
        if authorized(headers, api_key) {
            assert(v =~= p + api_key) by {
                assert(v.take(p.len() as int) =~= p);
                assert(v =~= v.take(p.len() as int) + v.skip(p.len() as int));
            }
        }
        if v == p + api_key {
            assert(v.subrange(0, p.len() as int) =~= p);
            assert(v.skip(p.len() as int) =~= api_key);
        }
    }
}

/// Compares two byte strings in time that does not depend on where they differ.
pub fn constant_time_eq(left: &[u8], right: &[u8]) -> (r: bool)
    ensures
        r == (left@ == right@),
{
    if left.len() != right.len() {
        return false;
    }
    let mut acc: u8 = 0;
    let mut i: usize = 0;
    while i < left.len()
        invariant
            i <= left.len(),
            left.len() == right.len(),
            (acc == 0) == (forall|k: int| 0 <= k < i ==> left@[k] == right@[k]),
        decreases left.len() - i,
    {
        let a = left[i];
        let b = right[i];
        let next = acc | (a ^ b);
        assert((next == 0) == (acc == 0 && a == b)) by (bit_vector)
            requires
                next == acc | (a ^ b),
        ;
        acc = next;
        i = i + 1;
    }
    if acc == 0 {
        assert(left@ =~= right@);
        true
    } else {
        false
    }
}

/// Checks the bearer token against the API key (`is_authorized`).
pub fn is_authorized(headers: &Headers, api_key: &str) -> (r: bool)
    ensures
        r == authorized(headers@, api_key@),
{
    let value = match headers.get("authorization") {
        Some(v) => v,
        None => return false,
    };
    let chars = text::chars_of(value);
    let prefix = text::chars_of("Bearer ");
    if !text::chars_starts_with(chars.as_slice(), prefix.as_slice()) {
        return false;
    }
    let token = text::string_from_chars(&chars.as_slice()[prefix.len()..chars.len()]);
    assert(token@ =~= value@.skip("Bearer "@.len() as int));
    let same = constant_time_eq(token.as_str().as_bytes(), api_key.as_bytes());
    proof {
        vstd::utf8::encode_utf8_decode_utf8(token@);
        vstd::utf8::encode_utf8_decode_utf8(api_key@);
    }
    same
}

/// Where the first blank line (`"\r\n\r\n"`) in `b` starts.
pub open spec fn index_of_blank_line(b: Seq<u8>) -> Option<int>
    decreases b.len(),
{
    if b.len() < 4 {
        None
    } else if b[0] == 13 && b[1] == 10 && b[2] == 13 && b[3] == 10 {
        Some(0)
    } else {
        match index_of_blank_line(b.drop_first()) {
            Some(i) => Some(i + 1),
            None => None,
        }
    }
}

/// Where the request head ends (`find_header_end`).
pub fn find_header_end(buffer: &[u8]) -> (r: Option<usize>)
    ensures
        match r {
            Some(i) => index_of_blank_line(buffer@) == Some(i as int),
            None => index_of_blank_line(buffer@) is None,
        },
{
    let mut i: usize = 0;
    assert(buffer@.skip(0) =~= buffer@);
    while buffer.len() - i >= 4
        invariant
            i <= buffer.len(),
            index_of_blank_line(buffer@) == match index_of_blank_line(buffer@.skip(i as int)) {
                Some(j) => Some(j + i),
                None => None,
            },
        decreases buffer.len() - i,
    {
        if buffer[i] == 13 && buffer[i + 1] == 10 && buffer[i + 2] == 13 && buffer[i + 3] == 10 {
            return Some(i);
        }
        assert(buffer@.skip(i as int).drop_first() =~= buffer@.skip(i + 1));
        i = i + 1;
    }
    None
}

/// What `String::from_utf8_lossy` makes of a byte string.
pub uninterp spec fn utf8_lossy(bytes: Seq<u8>) -> Seq<char>;

/// `String::from_utf8_lossy`: the text of `bytes` with each invalid sequence
/// replaced by U+FFFD. The contract names the result and states that valid
/// UTF-8 is decoded as it is; how invalid bytes are replaced is left unsaid.
#[verifier::external_body]
pub(crate) fn from_utf8_lossy(bytes: &[u8]) -> (r: String)
    ensures
        r@ == utf8_lossy(bytes@),
        vstd::utf8::valid_utf8(bytes@) ==> r@ == vstd::utf8::decode_utf8(bytes@),
{
    String::from_utf8_lossy(bytes).into_owned()
}

/// The error of a command that failed: what it wrote to stderr, trimmed, or
/// `fallback` when that is blank (as `ngrok config add-authtoken` and
/// `codex debug models` failures are reported).
pub fn failure_text(stderr: &[u8], fallback: &str) -> (r: String)
    ensures
        r@ == if text::is_blank(utf8_lossy(stderr@)) {
            fallback@
        } else {
            text::trim(utf8_lossy(stderr@))
        },
{
    let decoded = from_utf8_lossy(stderr);
    let t = text::trimmed(decoded.as_str());
    if t.as_str().is_empty() {
        text::owned(fallback)
    } else {
        t
    }
}

/// The request line and headers of an HTTP request.
#[derive(Debug)]
pub struct RequestHead {
    pub method: String,
    pub path: String,
    pub headers: Headers,
    pub content_length: usize,
}

/// The headers that header lines build: `name: value`, name trimmed and
/// lower-cased, value trimmed; lines without a colon are skipped.
pub open spec fn header_map(lines: Seq<Seq<char>>) -> Map<Seq<char>, Seq<char>>
    decreases lines.len(),
{
    if lines.len() == 0 {
        Map::empty()
    } else {
        let m = header_map(lines.drop_last());
        match text::split_once(lines.last(), ':') {
            Some(kv) => m.insert(text::ascii_lower(text::trim(kv.0)), text::trim(kv.1)),
            None => m,
        }
    }
}

/// The declared body length: a `content-length` that parses, else zero.
pub open spec fn content_length_of(headers: Map<Seq<char>, Seq<char>>) -> nat {
    if headers.contains_key("content-length"@) {
        match text::parse_usize(headers["content-length"@]) {
            Some(n) => n,
            None => 0,
        }
    } else {
        0
    }
}

proof fn lemma_split_crlf_nonempty(s: Seq<char>)
    ensures
        text::split_crlf(s).len() >= 1,
{
}

/// The method, path, headers and declared body length of a request head
/// whose text is `t`.
pub open spec fn head_method(t: Seq<char>) -> Seq<char> {
    text::first_word(text::split_crlf(t)[0])
}

pub open spec fn head_path(t: Seq<char>) -> Seq<char> {
    text::first_word(text::after_first_word(text::split_crlf(t)[0]))
}

pub open spec fn head_headers(t: Seq<char>) -> Map<Seq<char>, Seq<char>> {
    header_map(text::split_crlf(t).skip(1))
}

/// The lower-cased, trimmed name of a header line.
pub open spec fn header_name(line: Seq<char>) -> Seq<char> {
    match text::split_once(line, ':') {
        Some(kv) => text::ascii_lower(text::trim(kv.0)),
        None => Seq::empty(),
    }
}

/// The trimmed value of a header line.
pub open spec fn header_value(line: Seq<char>) -> Seq<char> {
    match text::split_once(line, ':') {
        Some(kv) => text::trim(kv.1),
        None => Seq::empty(),
    }
}

fn parse_header_line(line: &[char]) -> (r: Option<(String, String)>)
    ensures
        match r {
            Some(kv) => text::split_once(line@, ':') is Some && kv.0@ == header_name(line@)
                && kv.1@ == header_value(line@),
            None => text::split_once(line@, ':') is None,
        },
{
    proof {
        assert(line@.skip(0) =~= line@);
    }
    let colon = match text::find_char(line, ':', 0) {
        Some(i) => i,
        None => return None,
    };
    let key = &line[0..colon];
    let value = &line[colon + 1..line.len()];
    assert(key@ =~= line@.take(colon as int));
    assert(value@ =~= line@.skip(colon + 1));
    let (ks, ke) = text::trim_bounds(key);
    let lowered = text::to_ascii_lowercase(&key[ks..ke]);
    let (vs, ve) = text::trim_bounds(value);
    let k = text::string_from_chars(lowered.as_slice());
    let v = text::string_from_chars(&value[vs..ve]);
    Some((k, v))
}

/// Reads the request line and headers from the bytes before the blank line.
pub fn parse_request_head(head: &[u8]) -> (r: RequestHead)
    ensures
        r.method@ == head_method(utf8_lossy(head@)),
        r.path@ == head_path(utf8_lossy(head@)),
        r.headers@ == head_headers(utf8_lossy(head@)),
        r.content_length as nat == content_length_of(head_headers(utf8_lossy(head@))),
{
    let decoded = from_utf8_lossy(head);
    let chars = text::chars_of(decoded.as_str());
    let lines = text::split_on_crlf(chars.as_slice());
    let ghost ls = text::split_crlf(chars@);
    proof {
        lemma_split_crlf_nonempty(chars@);
    }
    let line = &lines[0];
    let (ms, me) = text::first_word_bounds(line.as_slice());
    let method = text::string_from_chars(&line.as_slice()[ms..me]);
    let rest = &line.as_slice()[me..line.len()];
    assert(rest@ =~= text::after_first_word(line@));
    let (ps, pe) = text::first_word_bounds(rest);
    let path = text::string_from_chars(&rest[ps..pe]);
    let mut headers = Headers::new();
    let mut i: usize = 1;
    assert(ls.skip(1).take(0) =~= Seq::<Seq<char>>::empty());
    while i < lines.len()
        invariant
            1 <= i <= lines.len(),
            lines@.len() == ls.len(),
            forall|k: int| 0 <= k < lines@.len() ==> (#[trigger] lines@[k])@ == ls[k],
            headers@ == header_map(ls.skip(1).take(i - 1)),
        decreases lines.len() - i,
    {
        let ghost lv = lines@[i as int]@;
        assert(ls.skip(1).take(i as int).drop_last() =~= ls.skip(1).take(i - 1));
        assert(ls.skip(1).take(i as int).last() == lv);
        match parse_header_line(lines[i].as_slice()) {
            Some((k, v)) => {
                headers.insert(k, v);
            },
            None => {},
        }
        i = i + 1;
    }
    assert(ls.skip(1).take(lines.len() - 1) =~= ls.skip(1));
    let content_length = match headers.get("content-length") {
        Some(v) => {
            let digits = text::chars_of(v);
            match text::parse_usize_chars(digits.as_slice()) {
                Some(n) => n,
                None => 0,
            }
        },
        None => 0,
    };
    RequestHead { method, path, headers, content_length }
}

proof fn lemma_blank_line_bounds(b: Seq<u8>)
    ensures
        match index_of_blank_line(b) {
            Some(i) => 0 <= i && i + 4 <= b.len(),
            None => true,
        },
    decreases b.len(),
{
    if b.len() >= 4 && !(b[0] == 13 && b[1] == 10 && b[2] == 13 && b[3] == 10) {
        lemma_blank_line_bounds(b.drop_first());
    }
}

/// More bytes do not move a blank line that was already found.
proof fn lemma_blank_line_extend(b: Seq<u8>, c: Seq<u8>)
    requires
        index_of_blank_line(b) is Some,
    ensures
        index_of_blank_line(b + c) == index_of_blank_line(b),
    decreases b.len(),
{
    if !(b[0] == 13 && b[1] == 10 && b[2] == 13 && b[3] == 10) {
        lemma_blank_line_extend(b.drop_first(), c);
        assert((b + c).drop_first() =~= b.drop_first() + c);
    }
}

/// Whether `h` is what the head bytes `raw` (the bytes before the blank
/// line) read as.
pub open spec fn head_of(h: RequestHead, raw: Seq<u8>) -> bool {
    &&& h.method@ == head_method(utf8_lossy(raw))
    &&& h.path@ == head_path(utf8_lossy(raw))
    &&& h.headers@ == head_headers(utf8_lossy(raw))
    &&& h.content_length as nat == declared_length(raw)
}

/// The body length that the head bytes `raw` declare.
pub open spec fn declared_length(raw: Seq<u8>) -> nat {
    content_length_of(head_headers(utf8_lossy(raw)))
}

/// The error for a body that ended early.
pub open spec fn incomplete_text(received: nat, expected: nat) -> Seq<char> {
    "Request body incomplete: received "@ + text::decimal(received) + " of "@ + text::decimal(
        expected,
    ) + " bytes"@
}

/// What one read does to a request being read.
pub enum ReadStepV {
    /// Keep reading; these are all the bytes so far.
    More(Seq<u8>),
    /// The request is larger than the bridge accepts.
    TooLarge,
    /// The request cannot be read.
    Failed(Seq<char>),
    /// The request is complete: its head bytes and its body.
    Done(Seq<u8>, Seq<u8>),
}

/// The outcome once the blank line ending the head is at `i` in `b`: a
/// declared length over the limit is refused; a body already in full ends
/// the read.
pub open spec fn head_arrived(b: Seq<u8>, i: int) -> ReadStepV {
    let cl = declared_length(b.take(i));
    if cl > MAX_BODY_BYTES {
        ReadStepV::TooLarge
    } else if b.skip(i + 4).len() >= cl {
        ReadStepV::Done(b.take(i), b.skip(i + 4).take(cl as int))
    } else {
        ReadStepV::More(b)
    }
}

/// One read of a request whose bytes so far are `bytes`; an empty `chunk`
/// means the client closed its side. While the head is incomplete, the bytes
/// so far must stay within the limit; once it is complete, the body must,
/// and the body is cut to its declared length.
pub open spec fn read_step(bytes: Seq<u8>, chunk: Seq<u8>) -> ReadStepV {
    match index_of_blank_line(bytes) {
        None => if chunk.len() == 0 {
            ReadStepV::Failed("Request ended before headers"@)
        } else {
            let b = bytes + chunk;
            if b.len() > MAX_BODY_BYTES {
                ReadStepV::TooLarge
            } else {
                match index_of_blank_line(b) {
                    None => ReadStepV::More(b),
                    Some(i) => head_arrived(b, i),
                }
            }
        },
        Some(i) => {
            let body = bytes.skip(i + 4);
            let cl = declared_length(bytes.take(i));
            if chunk.len() == 0 {
                ReadStepV::Failed(incomplete_text(body.len(), cl))
            } else if body.len() + chunk.len() > MAX_BODY_BYTES {
                ReadStepV::TooLarge
            } else if body.len() + chunk.len() >= cl {
                ReadStepV::Done(bytes.take(i), (body + chunk).take(cl as int))
            } else {
                ReadStepV::More(bytes + chunk)
            }
        },
    }
}

/// A request that is read in full has a body of exactly its declared
/// length, never more than the bridge accepts, whatever the reads looked like.
pub proof fn law_read_body_has_declared_length(bytes: Seq<u8>, chunk: Seq<u8>)
    requires
        read_step(bytes, chunk) is Done,
    ensures
        read_step(bytes, chunk)->Done_1.len() == declared_length(read_step(bytes, chunk)->Done_0),
        read_step(bytes, chunk)->Done_1.len() <= MAX_BODY_BYTES,
{
    lemma_blank_line_bounds(bytes);
    lemma_blank_line_bounds(bytes + chunk);
}

/// A request read in full.
#[derive(Debug)]
pub struct HttpRequest {
    pub head: RequestHead,
    pub body: Vec<u8>,
}

/// A request being read from a connection (the loop of `read_request`).
#[derive(Debug)]
pub struct RequestReader {
    bytes: Vec<u8>,
    head: Option<RequestHead>,
    head_end: usize,
}

/// What one read did.
#[derive(Debug)]
pub enum ReadStep {
    More(RequestReader),
    TooLarge,
    Failed(String),
    Done(HttpRequest),
}

impl RequestReader {
    /// The bytes read so far.
    pub closed spec fn received(&self) -> Seq<u8> {
        self.bytes@
    }

    /// A reader that has not finished: within the limits, and holding the
    /// parsed head once the blank line has arrived.
    pub closed spec fn wf(&self) -> bool {
        match self.head {
            None => index_of_blank_line(self.bytes@) is None && self.bytes@.len()
                <= MAX_BODY_BYTES,
            Some(h) => {
                &&& index_of_blank_line(self.bytes@) == Some(self.head_end as int)
                &&& self.head_end + 4 <= self.bytes@.len()
                &&& head_of(h, self.bytes@.take(self.head_end as int))
                &&& h.content_length <= MAX_BODY_BYTES
                &&& self.bytes@.len() - (self.head_end + 4) < h.content_length
            },
        }
    }

    /// Nothing read yet.
    pub fn new() -> (r: RequestReader)
        ensures
            r.wf(),
            r.received() == Seq::<u8>::empty(),
    {
        RequestReader { bytes: Vec::new(), head: None, head_end: 0 }
    }

    /// Whether the head has arrived, so that the reads that follow are body.
    pub fn head_complete(&self) -> (r: bool)
        requires
            self.wf(),
        ensures
            r == (index_of_blank_line(self.received()) is Some),
    {
        self.head.is_some()
    }

    /// Takes the bytes of one read; an empty read means the client closed
    /// its side.
    pub fn on_chunk(self, chunk: &[u8]) -> (r: ReadStep)
        requires
            self.wf(),
        ensures
            match read_step(self.received(), chunk@) {
                ReadStepV::More(b) => r matches ReadStep::More(n) && n.wf() && n.received() == b,
                ReadStepV::TooLarge => r is TooLarge,
                ReadStepV::Failed(m) => r matches ReadStep::Failed(e) && e@ == m,
                ReadStepV::Done(raw, body) => r matches ReadStep::Done(req) && head_of(
                    req.head,
                    raw,
                ) && req.body@ == body,
            },
    {
        let RequestReader { bytes, head, head_end } = self;
        let ghost before = bytes@;
        match head {
            None => {
                if chunk.len() == 0 {
                    return ReadStep::Failed(text::owned("Request ended before headers"));
                }
                if chunk.len() > MAX_BODY_BYTES - bytes.len() {
                    return ReadStep::TooLarge;
                }
                let mut bytes = bytes;
                extend_bytes(&mut bytes, chunk);
                match find_header_end(bytes.as_slice()) {
                    None => ReadStep::More(RequestReader { bytes, head: None, head_end: 0 }),
                    Some(i) => {
                        proof {
                            lemma_blank_line_bounds(bytes@);
                        }
                        let h = parse_request_head(&bytes.as_slice()[0..i]);
                        assert(bytes@.subrange(0, i as int) =~= bytes@.take(i as int));
                        if h.content_length > MAX_BODY_BYTES {
                            return ReadStep::TooLarge;
                        }
                        let available = bytes.len() - (i + 4);
                        if available >= h.content_length {
                            let body = copy_bytes(&bytes.as_slice()[i + 4..i + 4 + h.content_length]);
                            assert(body@ =~= bytes@.skip(i + 4).take(h.content_length as int));
                            ReadStep::Done(HttpRequest { head: h, body })
                        } else {
                            ReadStep::More(RequestReader { bytes, head: Some(h), head_end: i })
                        }
                    },
                }
            },
            Some(h) => {
                let body_len = bytes.len() - (head_end + 4);
                if chunk.len() == 0 {
                    let mut e = text::owned("Request body incomplete: received ");
                    text::push_decimal(&mut e, body_len as u64);
                    text::push_str(&mut e, " of ");
                    text::push_decimal(&mut e, h.content_length as u64);
                    text::push_str(&mut e, " bytes");
                    return ReadStep::Failed(e);
                }
                if chunk.len() > MAX_BODY_BYTES - body_len {
                    return ReadStep::TooLarge;
                }
                let mut bytes = bytes;
                extend_bytes(&mut bytes, chunk);
                proof {
                    lemma_blank_line_extend(before, chunk@);
                    assert(bytes@.take(head_end as int) =~= before.take(head_end as int));
                    assert(bytes@.skip(head_end + 4) =~= before.skip(head_end + 4) + chunk@);
                }
                if body_len + chunk.len() >= h.content_length {
                    let start = head_end + 4;
                    assert(bytes@.len() == before.len() + chunk@.len());
                    assert(start + h.content_length <= bytes.len());
                    let body = copy_bytes(&bytes.as_slice()[start..start + h.content_length]);
                    assert(body@ =~= (before.skip(head_end + 4) + chunk@).take(
                        h.content_length as int,
                    ));
                    ReadStep::Done(HttpRequest { head: h, body })
                } else {
                    ReadStep::More(RequestReader { bytes, head: Some(h), head_end })
                }
            },
        }
    }
}

fn extend_bytes(bytes: &mut Vec<u8>, chunk: &[u8])
    ensures
        final(bytes)@ == old(bytes)@ + chunk@,
{
    let mut i: usize = 0;
    let ghost start = bytes@;
    while i < chunk.len()
        invariant
            i <= chunk.len(),
            bytes@ == start + chunk@.take(i as int),
        decreases chunk.len() - i,
    {
        bytes.push(chunk[i]);
        i = i + 1;
        assert(bytes@ =~= start + chunk@.take(i as int));
    }
    assert(chunk@.take(chunk.len() as int) =~= chunk@);
}

fn copy_bytes(bytes: &[u8]) -> (r: Vec<u8>)
    ensures
        r@ == bytes@,
{
    let mut r: Vec<u8> = Vec::new();
    extend_bytes(&mut r, bytes);
    assert(Seq::<u8>::empty() + bytes@ =~= bytes@);
    r
}

/// The reason phrase for the status codes the bridge sends.
pub open spec fn status_text(status: u16) -> Seq<char> {
    if status == 200 {
        "OK"@
    } else if status == 400 {
        "Bad Request"@
    } else if status == 401 {
        "Unauthorized"@
    } else if status == 404 {
        "Not Found"@
    } else if status == 413 {
        "Payload Too Large"@
    } else if status == 502 {
        "Bad Gateway"@
    } else {
        "Internal Server Error"@
    }
}

/// The reason phrase for a status code.
pub fn status_reason(status: u16) -> (r: &'static str)
    ensures
        r@ == status_text(status),
{
    if status == 200 {
        "OK"
    } else if status == 400 {
        "Bad Request"
    } else if status == 401 {
        "Unauthorized"
    } else if status == 404 {
        "Not Found"
    } else if status == 413 {
        "Payload Too Large"
    } else if status == 502 {
        "Bad Gateway"
    } else {
        "Internal Server Error"
    }
}

/// The status line and headers of a response with a body of `body_len` bytes.
pub open spec fn response_head_text(status: u16, content_type: Seq<char>, body_len: nat) -> Seq<char> {
    "HTTP/1.1 "@ + text::decimal(status as nat) + " "@ + status_text(status) + "\r\ncontent-type: "@
        + content_type + "\r\ncontent-length: "@ + text::decimal(body_len) + "\r\nconnection: close\r\n\r\n"@
}

/// The status line and headers of a response (the head `write_response` sends).
pub fn response_head(status: u16, content_type: &str, body_len: usize) -> (r: String)
    ensures
        r@ == response_head_text(status, content_type@, body_len as nat),
{
    let mut r = text::owned("HTTP/1.1 ");
    text::push_decimal(&mut r, status as u64);
    text::push_str(&mut r, " ");
    text::push_str(&mut r, status_reason(status));
    text::push_str(&mut r, "\r\ncontent-type: ");
    text::push_str(&mut r, content_type);
    text::push_str(&mut r, "\r\ncontent-length: ");
    text::push_decimal(&mut r, body_len as u64);
    text::push_str(&mut r, "\r\nconnection: close\r\n\r\n");
    r
}

/// A complete HTTP response: the head, then the body.
#[derive(Debug)]
pub struct HttpResponse {
    pub status: u16,
    pub head: String,
    pub body: String,
}

/// A JSON response: the compact text of `payload` with a head that gives its length.
pub open spec fn json_response_of(status: u16, payload: JsonV, r: HttpResponse) -> bool {
    &&& r.status == status
    &&& r.body@ == crate::json::json_serialize(payload)
    &&& r.head@ == response_head_text(
        status,
        "application/json; charset=utf-8"@,
        text::byte_len(crate::json::json_serialize(payload)),
    )
}

/// A JSON response (`write_json`'s framing).
pub fn json_response(status: u16, payload: &Json) -> (r: HttpResponse)
    ensures
        json_response_of(status, payload@, r),
{
    let body = crate::json::to_json_text(payload);
    let head = response_head(status, "application/json; charset=utf-8", body.as_str().len());
    HttpResponse { status, head, body }
}

/// The head of the server-sent-event stream.
pub open spec fn sse_head_text() -> Seq<char> {
    "HTTP/1.1 200 OK\r\ncontent-type: text/event-stream; charset=utf-8\r\ncache-control: no-cache\r\nconnection: close\r\n\r\n"@
}

/// The head `start_sse` sends.
pub fn sse_head() -> (r: &'static str)
    ensures
        r@ == sse_head_text(),
{
    "HTTP/1.1 200 OK\r\ncontent-type: text/event-stream; charset=utf-8\r\ncache-control: no-cache\r\nconnection: close\r\n\r\n"
}

/// One server-sent event carrying `payload`.
pub open spec fn sse_frame_text(payload: JsonV) -> Seq<char> {
    "data: "@ + crate::json::json_serialize(payload) + "\n\n"@
}

/// The event `write_sse_data` sends.
pub fn sse_frame(payload: &Json) -> (r: String)
    ensures
        r@ == sse_frame_text(payload@),
{
    let mut r = text::owned("data: ");
    let body = crate::json::to_json_text(payload);
    text::push_str(&mut r, body.as_str());
    text::push_str(&mut r, "\n\n");
    r
}

/// The event that ends a stream.
pub open spec fn sse_done_text() -> Seq<char> {
    "data: [DONE]\n\n"@
}

/// The event that ends a stream.
pub fn sse_done() -> (r: &'static str)
    ensures
        r@ == sse_done_text(),
{
    "data: [DONE]\n\n"
}
} // verus!
