//! The application configuration (`peercode.config.toml`) and the reading
//! of its log-level settings.
use vstd::prelude::*;
use crate::text::{
    to_chars, lower_chars, trim_bounds, chars_eq, ascii_lower, trim_spec, owned, str_eq, is_ws,
    trim_start_spec, trim_end_spec,
};

verus! {

/// The application configuration.
#[derive(Debug, Clone)]
pub struct AppConfig {
    pub websocket: WebsocketConfig,
    pub logging: LoggingConfig,
}

/// What is logged, where, and how verbosely.
#[derive(Debug, Clone)]
pub struct LoggingConfig {
    pub show_gateway_logs: bool,
    pub show_cloudflared_logs: bool,
    pub tauri_file_logs: bool,
    pub tauri_log_level: String,
    pub gateway_log_level: String,
    pub tunnel_log_level: String,
}

/// The websocket settings.
#[derive(Debug, Clone)]
pub struct WebsocketConfig {
    pub connect_timeout_ms: u64,
}

/// The verbosity of the application's own log.
#[derive(Debug, Clone, Copy, PartialEq, Eq, Structural)]
pub enum LevelFilter {
    Off,
    Error,
    Warn,
    Info,
    Debug,
    Trace,
}

/// The configured level text as it is matched: trimmed, ASCII lower case.
pub open spec fn level_key(raw: Seq<char>) -> Seq<char> {
    ascii_lower(trim_spec(raw))
}

/// The level a configured text names: `off`, `error`, `warn` (also
/// `warning`), `info`, `debug` or `trace`; anything else is `info`.
pub open spec fn level_of(raw: Seq<char>) -> LevelFilter {
    let k = level_key(raw);
    if k == "off"@ {
        LevelFilter::Off
    } else if k == "error"@ {
        LevelFilter::Error
    } else if k == "warn"@ || k == "warning"@ {
        LevelFilter::Warn
    } else if k == "info"@ {
        LevelFilter::Info
    } else if k == "debug"@ {
        LevelFilter::Debug
    } else if k == "trace"@ {
        LevelFilter::Trace
    } else {
        LevelFilter::Info
    }
}

/// The canonical name of a level.
pub open spec fn level_name(l: LevelFilter) -> Seq<char> {
    match l {
        LevelFilter::Off => "off"@,
        LevelFilter::Error => "error"@,
        LevelFilter::Warn => "warn"@,
        LevelFilter::Info => "info"@,
        LevelFilter::Debug => "debug"@,
        LevelFilter::Trace => "trace"@,
    }
}

/// The level a configured text names.
fn parse_level(raw: &str) -> (r: LevelFilter)
    ensures
        r == level_of(raw@),
{
    let v = to_chars(raw);
    let (lo, hi) = trim_bounds(&v);
    let trimmed = crate::text::string_of_range(&v, lo, hi);
    let key = lower_chars(&to_chars(trimmed.as_str()));
    if chars_eq(&key, &to_chars("off")) {
        LevelFilter::Off
    } else if chars_eq(&key, &to_chars("error")) {
        LevelFilter::Error
    } else if chars_eq(&key, &to_chars("warn")) || chars_eq(&key, &to_chars("warning")) {
        LevelFilter::Warn
    } else if chars_eq(&key, &to_chars("info")) {
        LevelFilter::Info
    } else if chars_eq(&key, &to_chars("debug")) {
        LevelFilter::Debug
    } else if chars_eq(&key, &to_chars("trace")) {
        LevelFilter::Trace
    } else {
        LevelFilter::Info
    }
}

/// `normalize_level`: the canonical name of the level a text names.
pub fn normalize_level(raw: &str) -> (r: &'static str)
    ensures
        r@ == level_name(level_of(raw@)),
{
    match parse_level(raw) {
        LevelFilter::Off => "off",
        LevelFilter::Error => "error",
        LevelFilter::Warn => "warn",
        LevelFilter::Info => "info",
        LevelFilter::Debug => "debug",
        LevelFilter::Trace => "trace",
    }
}

/// The level cloudflared is started with: it has no `off` and no `trace`,
/// so those become `error` and `debug`.
pub open spec fn tunnel_level(l: LevelFilter) -> Seq<char> {
    match l {
        LevelFilter::Off => "error"@,
        LevelFilter::Trace => "debug"@,
        _ => level_name(l),
    }
}

impl LoggingConfig {
    /// The level of the application's own log.
    pub fn level_filter(&self) -> (r: LevelFilter)
        ensures
            r == level_of(self.tauri_log_level@),
    {
        parse_level(self.tauri_log_level.as_str())
    }

    /// The `GATEWAY_LOG_LEVEL` the gateway is started with.
    pub fn gateway_level_for_env(&self) -> (r: String)
        ensures
            r@ == level_name(level_of(self.gateway_log_level@)),
    {
        owned(normalize_level(self.gateway_log_level.as_str()))
    }

    /// The `--loglevel` cloudflared is started with.
    pub fn tunnel_level_for_arg(&self) -> (r: String)
        ensures
            r@ == tunnel_level(level_of(self.tunnel_log_level@)),
    {
        match parse_level(self.tunnel_log_level.as_str()) {
            LevelFilter::Off => String::from_str("error"),
            LevelFilter::Trace => String::from_str("debug"),
            l => owned(normalize_level(self.tunnel_log_level.as_str())),
        }
    }
}

/// The name of the `Duration` that `Duration::from_millis` makes of `ms`.
pub uninterp spec fn duration_from_millis(ms: u64) -> core::time::Duration;

/// `Duration::from_millis`.
#[verifier::external_body]
fn millis(ms: u64) -> (r: core::time::Duration)
    ensures
        r == duration_from_millis(ms),
{
    core::time::Duration::from_millis(ms)
}

impl WebsocketConfig {
    /// How long a websocket connection may take to open.
    pub fn connect_timeout(&self) -> (r: core::time::Duration)
        ensures
            r == duration_from_millis(self.connect_timeout_ms),
    {
        millis(self.connect_timeout_ms)
    }
}

/// A lower-case word without surrounding whitespace is its own key.
proof fn lemma_word_is_key(w: Seq<char>)
    requires
        w.len() > 0,
        forall|i: int| 0 <= i < w.len() ==> 'a' <= #[trigger] w[i] <= 'z',
    ensures
        level_key(w) == w,
{
    assert(!is_ws(w[0]));
    assert(trim_start_spec(w) == w);
    assert(!is_ws(w.last()));
    assert(trim_end_spec(w) == w);
    assert(ascii_lower(w) =~= w);
}

/// Each level is read back from its name, and the names are `off`, `error`,
/// `warn`, `info`, `debug` and `trace`; `warning` also reads as `warn`, and
/// case and surrounding whitespace do not matter.
pub proof fn law_level_names_read_back(l: LevelFilter)
    ensures
        level_of("off"@) == LevelFilter::Off,
        level_of("error"@) == LevelFilter::Error,
        level_of("warn"@) == LevelFilter::Warn,
        level_of("warning"@) == LevelFilter::Warn,
        level_of("info"@) == LevelFilter::Info,
        level_of("debug"@) == LevelFilter::Debug,
        level_of("trace"@) == LevelFilter::Trace,
        level_of(" ERROR "@) == LevelFilter::Error,
        level_of(level_name(l)) == l,
{
    reveal_strlit("off");
    reveal_strlit("error");
    reveal_strlit("warn");
    reveal_strlit("warning");
    reveal_strlit("info");
    reveal_strlit("debug");
    reveal_strlit("trace");
    reveal_strlit(" ERROR ");
    lemma_word_is_key("off"@);
    lemma_word_is_key("error"@);
    lemma_word_is_key("warn"@);
    lemma_word_is_key("warning"@);
    lemma_word_is_key("info"@);
    lemma_word_is_key("debug"@);
    lemma_word_is_key("trace"@);
    let raw = " ERROR "@;
    let inner = raw.subrange(1, 6);
    assert(raw.drop_first() =~= inner.push(' '));
    assert(trim_start_spec(raw) == trim_start_spec(raw.drop_first()));
    assert(trim_start_spec(raw.drop_first()) == raw.drop_first());
    assert(raw.drop_first().last() == ' ');
    assert(raw.drop_first().drop_last() =~= inner);
    assert(trim_end_spec(raw.drop_first()) == trim_end_spec(inner));
    assert(trim_end_spec(inner) == inner);
    assert(ascii_lower(inner) =~= "error"@);
}

} // verus!
