//! The messages logged about agents, the log line format, and the reading of
//! the log level setting. The logging itself happens where the messages are
//! handed to the logger.
use vstd::prelude::*;
use crate::text::{decimal, owned, text_eq};
#[allow(unused_imports)]
use crate::text::decimal_text;

verus! {

/// The message logged when an agent is initialized.
pub fn log_agent_init(agent_name: &str, agent_id: &str, config_summary: &str) -> (r: String)
    ensures
        r@ == "🎯 Agent ["@ + agent_name@ + ":"@ + agent_id@ + "] initialized with config: "@ + config_summary@,
{
    let mut s = owned("🎯 Agent [");
    s.append(agent_name);
    s.append(":");
    s.append(agent_id);
    s.append("] initialized with config: ");
    s.append(config_summary);
    s
}

/// The message logged when an agent completes a task.
pub fn log_agent_task_completion(agent_name: &str, agent_id: &str, task: &str, duration_ms: u64) -> (r: String)
    ensures
        r@ == "✅ Agent ["@ + agent_name@ + ":"@ + agent_id@ + "] completed task '"@ + task@ + "' in "@
            + decimal_text(duration_ms as nat) + "ms"@,
{
    let mut s = owned("✅ Agent [");
    s.append(agent_name);
    s.append(":");
    s.append(agent_id);
    s.append("] completed task '");
    s.append(task);
    s.append("' in ");
    let d = decimal(duration_ms);
    s.append(d.as_str());
    s.append("ms");
    s
}

/// The message logged when an agent changes state.
pub fn log_agent_state_change(agent_name: &str, agent_id: &str, from_state: &str, to_state: &str) -> (r: String)
    ensures
        r@ == "🔄 Agent ["@ + agent_name@ + ":"@ + agent_id@ + "] state transition: "@ + from_state@ + " → "@
            + to_state@,
{
    let mut s = owned("🔄 Agent [");
    s.append(agent_name);
    s.append(":");
    s.append(agent_id);
    s.append("] state transition: ");
    s.append(from_state);
    s.append(" → ");
    s.append(to_state);
    s
}

/// A log line: `"<timestamp> [<target>] <level> - <message>"`.
pub fn log_line(timestamp: &str, target: &str, level: &str, message: &str) -> (r: String)
    ensures
        r@ == timestamp@ + " ["@ + target@ + "] "@ + level@ + " - "@ + message@,
{
    let mut s = owned(timestamp);
    s.append(" [");
    s.append(target);
    s.append("] ");
    s.append(level);
    s.append(" - ");
    s.append(message);
    s
}

/// The log levels a filter can be set to.
pub enum LevelChoice {
    Trace,
    Debug,
    Info,
    Warn,
    Error,
    Off,
}

/// The text `str::to_uppercase` gives (Unicode upper case).
pub uninterp spec fn upper_text(s: Seq<char>) -> Seq<char>;

/// Every character is ASCII.
pub open spec fn is_ascii_text(s: Seq<char>) -> bool {
    forall|i: int| 0 <= i < s.len() ==> (s[i] as int) < 128
}

/// The ASCII upper case of a character: `a`..`z` become `A`..`Z`, the rest
/// stay.
pub open spec fn ascii_upper(c: char) -> char {
    if 'a' <= c && c <= 'z' {
        ((c as int) - 32) as char
    } else {
        c
    }
}

/// The ASCII upper case of a text.
pub open spec fn ascii_upper_text(s: Seq<char>) -> Seq<char> {
    s.map_values(|c: char| ascii_upper(c))
}

/// `str::to_uppercase`. The Unicode case mapping is only named here; for
/// ASCII text it is the ASCII upper case, as the Unicode mapping of those
/// characters is.
#[verifier::external_body]
fn uppercase(s: &str) -> (r: String)
    ensures
        r@ == upper_text(s@),
        is_ascii_text(s@) ==> r@ == ascii_upper_text(s@),
{
    s.to_uppercase()
}

/// The level a setting names, ignoring case: `TRACE`, `DEBUG`, `INFO`,
/// `WARN`, `ERROR` or `OFF`; anything else is refused (`None`).
pub open spec fn named_level(upper: Seq<char>) -> Option<LevelChoice> {
    if upper == "TRACE"@ {
        Some(LevelChoice::Trace)
    } else if upper == "DEBUG"@ {
        Some(LevelChoice::Debug)
    } else if upper == "INFO"@ {
        Some(LevelChoice::Info)
    } else if upper == "WARN"@ {
        Some(LevelChoice::Warn)
    } else if upper == "ERROR"@ {
        Some(LevelChoice::Error)
    } else if upper == "OFF"@ {
        Some(LevelChoice::Off)
    } else {
        None
    }
}

/// Read the log level setting (absent: `"INFO"`). Returns the setting in
/// upper case, and the level it names; `None` when it names none, in which
/// case the logger falls back to `Info`.
pub fn level_from_setting(setting: Option<String>) -> (r: (String, Option<LevelChoice>))
    ensures
        ({
            let raw = match setting {
                Some(s) => s@,
                None => "INFO"@,
            };
            &&& r.0@ == upper_text(raw)
            &&& r.1 == named_level(upper_text(raw))
            &&& is_ascii_text(raw) ==> r.1 == named_level(ascii_upper_text(raw))
        }),
        setting is None ==> r.1 == Some(LevelChoice::Info),
{
    let raw = match setting {
        Some(s) => s,
        None => owned("INFO"),
    };
    let up = uppercase(raw.as_str());
    proof {
        if setting is None {
            reveal_strlit("INFO");
            reveal_strlit("TRACE");
            reveal_strlit("DEBUG");
            assert(raw@ == "INFO"@);
            assert(is_ascii_text(raw@));
            assert(ascii_upper_text(raw@) =~= "INFO"@);
            assert(up@ == "INFO"@);
        }
    }
    let level = if text_eq(up.as_str(), "TRACE") {
        Some(LevelChoice::Trace)
    } else if text_eq(up.as_str(), "DEBUG") {
        Some(LevelChoice::Debug)
    } else if text_eq(up.as_str(), "INFO") {
        Some(LevelChoice::Info)
    } else if text_eq(up.as_str(), "WARN") {
        Some(LevelChoice::Warn)
    } else if text_eq(up.as_str(), "ERROR") {
        Some(LevelChoice::Error)
    } else if text_eq(up.as_str(), "OFF") {
        Some(LevelChoice::Off)
    } else {
        None
    };
    (up, level)
}

} // verus!
