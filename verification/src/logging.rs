//! How events are written to syslog.
use crate::text::{join3, same_text};
use vstd::prelude::*;

verus! {

/// Syslog facility for PAM modules (`LOG_AUTHPRIV`).
pub const FACILITY_AUTHPRIV: i32 = 80;

/// Syslog facility for daemon/service components (`LOG_DAEMON`).
pub const FACILITY_DAEMON: i32 = 24;

/// The environment variable that sets the log level.
pub const LOG_ENV_VAR: &'static str = "SSSD_OIDC_LOG";

/// How severe an event is.
#[derive(Debug, Clone, Copy, PartialEq, Eq, Structural)]
pub enum Level {
    Error,
    Warn,
    Info,
    Debug,
    Trace,
}

/// Which events are logged: those at least as severe, or none.
#[derive(Debug, Clone, Copy, PartialEq, Eq, Structural)]
pub enum LevelFilter {
    Off,
    Error,
    Warn,
    Info,
    Debug,
    Trace,
}

/// `text` in lower case, as Unicode has it.
pub uninterp spec fn lowercase_of(text: Seq<char>) -> Seq<char>;

/// Calls `str::to_lowercase`. The result is named: it is a function of the text
/// alone.
#[verifier::external_body]
fn lowercase(text: &str) -> (res: String)
    ensures
        res@ == lowercase_of(text@),
{
    text.to_lowercase()
}

/// The level that a word in lower case names; `WARN` where it names none.
pub open spec fn named_level(word: Seq<char>) -> LevelFilter {
    if word == "error"@ {
        LevelFilter::Error
    } else if word == "info"@ {
        LevelFilter::Info
    } else if word == "debug"@ {
        LevelFilter::Debug
    } else if word == "trace"@ {
        LevelFilter::Trace
    } else if word == "off"@ {
        LevelFilter::Off
    } else {
        LevelFilter::Warn
    }
}

/// Finds the level that a word in lower case names.
pub fn level_from_word(word: &str) -> (level: LevelFilter)
    ensures
        level == named_level(word@),
        level == LevelFilter::Error <==> word@ == "error"@,
        level == LevelFilter::Info <==> word@ == "info"@,
        level == LevelFilter::Debug <==> word@ == "debug"@,
        level == LevelFilter::Trace <==> word@ == "trace"@,
        level == LevelFilter::Off <==> word@ == "off"@,
{
    proof {
        lemma_level_names(word@);
    }
    if same_text(word, "error") {
        LevelFilter::Error
    } else if same_text(word, "info") {
        LevelFilter::Info
    } else if same_text(word, "debug") {
        LevelFilter::Debug
    } else if same_text(word, "trace") {
        LevelFilter::Trace
    } else if same_text(word, "off") {
        LevelFilter::Off
    } else {
        LevelFilter::Warn
    }
}

/// Parse the value of the `SSSD_OIDC_LOG` env var into a level filter: one of
/// `error`, `warn`, `info`, `debug`, `trace`, `off` in any case, and `WARN` for
/// anything else or where it is not set.
pub fn parse_level(value: Option<&str>) -> (level: LevelFilter)
    ensures
        level == match value {
            Some(text) => named_level(lowercase_of(text@)),
            None => LevelFilter::Warn,
        },
{
    match value {
        Some(text) => {
            let word = lowercase(text);
            level_from_word(word.as_str())
        },
        None => LevelFilter::Warn,
    }
}

/// The syslog priority of an event (`LOG_ERR`, `LOG_WARNING`, `LOG_INFO` or
/// `LOG_DEBUG`).
pub fn priority(level: Level) -> (priority: i32)
    ensures
        priority == match level {
            Level::Error => 3i32,
            Level::Warn => 4i32,
            Level::Info => 6i32,
            Level::Debug => 7i32,
            Level::Trace => 7i32,
        },
{
    match level {
        Level::Error => 3,
        Level::Warn => 4,
        Level::Info => 6,
        Level::Debug => 7,
        Level::Trace => 7,
    }
}

/// What an event says, gathered field by field.
#[derive(Debug, Clone)]
pub struct MessageVisitor {
    /// The field called `message`.
    pub message: Option<String>,
    /// The other fields, as `key=value` with blanks between them.
    pub fields: String,
}

impl MessageVisitor {
    /// Nothing has been gathered yet.
    pub fn new() -> (visitor: MessageVisitor)
        ensures
            visitor.message is None,
            visitor.fields@ == Seq::<char>::empty(),
    {
        MessageVisitor { message: None, fields: String::new() }
    }

    /// Takes a field whose value is written as `value`.
    pub fn record(&mut self, name: &str, value: &str)
        ensures
            if name@ == "message"@ {
                &&& final(self).message matches Some(m) && m@ == value@
                &&& final(self).fields@ == old(self).fields@
            } else {
                &&& final(self).message == old(self).message
                &&& final(self).fields@ == (if old(self).fields@.len() == 0 {
                    name@ + "="@ + value@
                } else {
                    old(self).fields@ + " "@ + (name@ + "="@ + value@)
                })
            },
    {
        if same_text(name, "message") {
            self.message = Some(value.to_owned());
        } else {
            let field = join3(name, "=", value);
            if self.fields.as_str().is_empty() {
                self.fields = field;
            } else {
                self.fields = join3(self.fields.as_str(), " ", field.as_str());
            }
        }
    }

    /// The text of the syslog message of an event of `module`.
    pub open spec fn text(self, module: Seq<char>) -> Seq<char> {
        "["@ + module + "] "@ + match self.message {
            Some(m) => if self.fields@.len() == 0 {
                m@
            } else {
                m@ + " "@ + self.fields@
            },
            None => if self.fields@.len() == 0 {
                "(event)"@
            } else {
                self.fields@
            },
        }
    }

    /// Writes the syslog message of an event: `[module::path] message key=value ...`.
    pub fn format(&self, module: Option<&str>) -> (text: String)
        ensures
            text@ == self.text(
                match module {
                    Some(path) => path@,
                    None => "sssd_oidc"@,
                },
            ),
            ("["@ + (match module {
                Some(path) => path@,
                None => "sssd_oidc"@,
            }) + "] "@).is_prefix_of(text@),
    {
        let module: &str = match module {
            Some(path) => path,
            None => "sssd_oidc",
        };
        let mut text = join3("[", module, "] ");
        match &self.message {
            Some(m) => {
                if self.fields.as_str().is_empty() {
                    text.append(m.as_str());
                } else {
                    let body = join3(m.as_str(), " ", self.fields.as_str());
                    text.append(body.as_str());
                }
            },
            None => {
                if self.fields.as_str().is_empty() {
                    text.append("(event)");
                } else {
                    text.append(self.fields.as_str());
                }
            },
        }
        text
    }
}

/// Each level goes by one word, and every other word stands for `WARN`.
pub proof fn lemma_level_names(word: Seq<char>)
    ensures
        named_level(word) == LevelFilter::Error <==> word == "error"@,
        named_level(word) == LevelFilter::Info <==> word == "info"@,
        named_level(word) == LevelFilter::Debug <==> word == "debug"@,
        named_level(word) == LevelFilter::Trace <==> word == "trace"@,
        named_level(word) == LevelFilter::Off <==> word == "off"@,
{
    reveal_strlit("error");
    reveal_strlit("info");
    reveal_strlit("debug");
    reveal_strlit("trace");
    reveal_strlit("off");
    assert("error"@[0] == 'e');
    assert("info"@[0] == 'i');
    assert("debug"@[0] == 'd');
    assert("trace"@[0] == 't');
    assert("off"@[0] == 'o');
}

/// The text of an event is its module in brackets, then the message if there is one, then
/// the fields if there are any.
pub proof fn lemma_event_text(event: MessageVisitor, module: Seq<char>)
    ensures
        event.message is Some && event.fields@.len() == 0 ==> event.text(module) == "["@ + module
            + "] "@ + event.message->0@,
        event.message is Some && event.fields@.len() > 0 ==> event.text(module) == "["@ + module
            + "] "@ + event.message->0@ + " "@ + event.fields@,
        event.message is None && event.fields@.len() > 0 ==> event.text(module) == "["@ + module
            + "] "@ + event.fields@,
        event.message is None && event.fields@.len() == 0 ==> event.text(module) == "["@ + module
            + "] "@ + "(event)"@,
        FACILITY_AUTHPRIV == 80,
        FACILITY_DAEMON == 24,
        LOG_ENV_VAR@ == "SSSD_OIDC_LOG"@,
{
    if event.message is Some && event.fields@.len() > 0 {
        assert(event.text(module) =~= "["@ + module + "] "@ + event.message->0@ + " "@
            + event.fields@);
    }
}

} // verus!
