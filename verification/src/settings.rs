//! How the server is set up: by its arguments, and by its environment.

use vstd::prelude::*;
use crate::bundle_graph::text_of;
use crate::ingest::DEFAULT_DB_FILENAME;
use crate::paths::{join_path, path_in};
use crate::pieces::{contains_text, extension, extension_of, push_text, str_contains, texts};
use crate::text::{ascii_lower, same_text, to_ascii_lowercase, trim_str, trimmed};
use crate::watcher::WatcherOptions;

verus! {

// ---------------------------------------------------------------------------
// Levels
// ---------------------------------------------------------------------------

/// How important a message is.
#[derive(Debug, Clone, Copy, PartialEq, Eq, Structural)]
pub enum LogLevel {
    Error,
    Warn,
    Info,
    Debug,
    Trace,
}

/// The level that a text names, in letters of any case.
pub open spec fn level_of(text: Seq<char>) -> Option<LogLevel> {
    let t = ascii_lower(text);
    if t == "error"@ {
        Some(LogLevel::Error)
    } else if t == "warn"@ || t == "warning"@ {
        Some(LogLevel::Warn)
    } else if t == "info"@ {
        Some(LogLevel::Info)
    } else if t == "debug"@ {
        Some(LogLevel::Debug)
    } else if t == "trace"@ {
        Some(LogLevel::Trace)
    } else {
        None
    }
}

impl LogLevel {
    /// The name of the level.
    pub open spec fn name(&self) -> Seq<char> {
        match *self {
            LogLevel::Error => "ERROR"@,
            LogLevel::Warn => "WARN"@,
            LogLevel::Info => "INFO"@,
            LogLevel::Debug => "DEBUG"@,
            LogLevel::Trace => "TRACE"@,
        }
    }

    /// The name of the level.
    pub fn as_str(&self) -> (r: &'static str)
        ensures
            r@ == self.name(),
    {
        match self {
            LogLevel::Error => "ERROR",
            LogLevel::Warn => "WARN",
            LogLevel::Info => "INFO",
            LogLevel::Debug => "DEBUG",
            LogLevel::Trace => "TRACE",
        }
    }

    /// How far down the level stands; an error stands highest.
    pub open spec fn rank(&self) -> u8 {
        match *self {
            LogLevel::Error => 0,
            LogLevel::Warn => 1,
            LogLevel::Info => 2,
            LogLevel::Debug => 3,
            LogLevel::Trace => 4,
        }
    }

    /// How far down the level stands.
    pub fn precedence(&self) -> (r: u8)
        ensures
            r == self.rank(),
    {
        match self {
            LogLevel::Error => 0,
            LogLevel::Warn => 1,
            LogLevel::Info => 2,
            LogLevel::Debug => 3,
            LogLevel::Trace => 4,
        }
    }

    /// The level that a text names, or what is said of another text.
    pub fn parse(text: &str) -> (r: Result<Self, String>)
        ensures
            match r {
                Ok(level) => level_of(text@) == Some(level),
                Err(message) => level_of(text@) is None && message@ == "Unknown log level: "@
                    + ascii_lower(text@),
            },
    {
        let lower = to_ascii_lowercase(text);
        let t = lower.as_str();
        if same_text(t, "error") {
            Ok(LogLevel::Error)
        } else if same_text(t, "warn") || same_text(t, "warning") {
            Ok(LogLevel::Warn)
        } else if same_text(t, "info") {
            Ok(LogLevel::Info)
        } else if same_text(t, "debug") {
            Ok(LogLevel::Debug)
        } else if same_text(t, "trace") {
            Ok(LogLevel::Trace)
        } else {
            let mut message = "Unknown log level: ".to_owned();
            message.append(t);
            Err(message)
        }
    }

    /// Whether a message of another level is logged where this one is set.
    pub fn admits(&self, level: LogLevel) -> (r: bool)
        ensures
            r == (level.rank() <= self.rank()),
    {
        level.precedence() <= self.precedence()
    }
}

impl std::str::FromStr for LogLevel {
    type Err = String;

    fn from_str(s: &str) -> Result<Self, String> {
        LogLevel::parse(s)
    }
}

/// The name of a level, in letters of any case, names that level.
pub proof fn law_level_name_read_back(level: LogLevel)
    ensures
        level_of(level.name()) == Some(level),
{
    reveal_strlit("ERROR");
    reveal_strlit("WARN");
    reveal_strlit("INFO");
    reveal_strlit("DEBUG");
    reveal_strlit("TRACE");
    reveal_strlit("error");
    reveal_strlit("warn");
    reveal_strlit("warning");
    reveal_strlit("info");
    reveal_strlit("debug");
    reveal_strlit("trace");
    let lower = ascii_lower(level.name());
    match level {
        LogLevel::Error => {
            assert(lower =~= "error"@);
        },
        LogLevel::Warn => {
            assert(lower =~= "warn"@);
            assert(lower.len() != "error"@.len());
        },
        LogLevel::Info => {
            assert(lower =~= "info"@);
            assert(lower[0] != "warn"@[0]);
        },
        LogLevel::Debug => {
            assert(lower =~= "debug"@);
            assert(lower[0] != "error"@[0]);
        },
        LogLevel::Trace => {
            assert(lower =~= "trace"@);
            assert(lower[0] != "error"@[0]);
            assert(lower[0] != "debug"@[0]);
        },
    }
}

// ---------------------------------------------------------------------------
// The server over lines
// ---------------------------------------------------------------------------

/// What the arguments say.
#[derive(Debug)]
pub struct Args {
    pub working_dir: Option<String>,
    pub database: Option<String>,
    pub log_level: Option<String>,
}

/// What the environment says.
#[derive(Debug)]
pub struct ConfigSurroundings {
    pub working_dir: Option<String>,
    pub current_dir: Option<String>,
    pub database: Option<String>,
    pub log_level: Option<String>,
}

/// How the server is set up.
#[derive(Debug)]
pub struct Config {
    pub working_dir: String,
    pub default_database_name: String,
    pub log_level: LogLevel,
}

/// The first of two that is there.
pub open spec fn first_of(a: Option<Seq<char>>, b: Option<Seq<char>>) -> Option<Seq<char>> {
    match a {
        Some(t) => Some(t),
        None => b,
    }
}

fn pick(a: &Option<String>, b: &Option<String>) -> (r: Option<String>)
    ensures
        text_of(r) == first_of(text_of(*a), text_of(*b)),
{
    match a {
        Some(t) => Some(t.clone()),
        None => match b {
            Some(t) => Some(t.clone()),
            None => None,
        },
    }
}

/// The text, or another where it is not there.
pub open spec fn text_or(a: Option<Seq<char>>, otherwise: Seq<char>) -> Seq<char> {
    match a {
        Some(t) => t,
        None => otherwise,
    }
}

fn or_text(a: Option<String>, otherwise: &str) -> (r: String)
    ensures
        r@ == text_or(text_of(a), otherwise@),
{
    match a {
        Some(t) => t,
        None => otherwise.to_owned(),
    }
}

impl Config {
    /// How the server is set up: by its arguments, else by its environment, else as usual.
    /// It fails where a level is named that does not exist.
    pub fn from_args(args: &Args, surroundings: &ConfigSurroundings) -> (r: Result<Self, String>)
        ensures
            ({
                let level = first_of(text_of(args.log_level), text_of(surroundings.log_level));
                match r {
                    Ok(c) => {
                        &&& c.working_dir@ == text_or(
                            first_of(
                                first_of(
                                    text_of(args.working_dir),
                                    text_of(surroundings.working_dir),
                                ),
                                text_of(surroundings.current_dir),
                            ),
                            "."@,
                        )
                        &&& c.default_database_name@ == text_or(
                            first_of(text_of(args.database), text_of(surroundings.database)),
                            DEFAULT_DB_FILENAME@,
                        )
                        &&& match level {
                            Some(text) => level_of(text) == Some(c.log_level),
                            None => c.log_level == LogLevel::Info,
                        }
                    },
                    Err(message) => level is Some && level_of(level->0) is None && message@
                        == "Unknown log level: "@ + ascii_lower(level->0),
                }
            }),
    {
        let chosen = pick(&args.working_dir, &surroundings.working_dir);
        let working_dir = or_text(pick(&chosen, &surroundings.current_dir), ".");
        let default_database_name = or_text(
            pick(&args.database, &surroundings.database),
            DEFAULT_DB_FILENAME,
        );
        let log_level = match pick(&args.log_level, &surroundings.log_level) {
            Some(text) => match LogLevel::parse(text.as_str()) {
                Ok(level) => level,
                Err(message) => return Err(message),
            },
            None => LogLevel::Info,
        };
        Ok(Config { working_dir, default_database_name, log_level })
    }
}

// ---------------------------------------------------------------------------
// The server over a protocol
// ---------------------------------------------------------------------------

/// What a switch says: `None` where it is neither on nor off.
pub open spec fn switch_of(value: Seq<char>) -> Option<bool> {
    let t = ascii_lower(trimmed(value));
    if t == "1"@ || t == "true"@ || t == "yes"@ || t == "on"@ {
        Some(true)
    } else if t == "0"@ || t == "false"@ || t == "no"@ || t == "off"@ {
        Some(false)
    } else {
        None
    }
}

/// What a switch says.
pub fn parse_bool(value: &str) -> (r: Option<bool>)
    ensures
        r == switch_of(value@),
{
    let inner = trim_str(value);
    let lower = to_ascii_lowercase(inner.as_str());
    let t = lower.as_str();
    if same_text(t, "1") || same_text(t, "true") || same_text(t, "yes") || same_text(t, "on") {
        Some(true)
    } else if same_text(t, "0") || same_text(t, "false") || same_text(t, "no") || same_text(
        t,
        "off",
    ) {
        Some(false)
    } else {
        None
    }
}

/// Whether messages go to the console: unless a switch says no.
pub fn console_enabled(switch: &Option<String>) -> (r: bool)
    ensures
        r == match text_of(*switch) {
            Some(text) => switch_of(text) != Some(false),
            None => true,
        },
{
    match switch {
        Some(text) => match parse_bool(text.as_str()) {
            Some(on) => on,
            None => true,
        },
        None => true,
    }
}

/// The filter of messages: that of the server's own variable, else that of the common one,
/// else that of the arguments.
pub fn choose_log_filter(own: &Option<String>, common: &Option<String>, argument: &str) -> (r:
    String)
    ensures
        r@ == text_or(first_of(text_of(*own), text_of(*common)), argument@),
{
    or_text(pick(own, common), argument)
}

/// A directive, unless the filter speaks of its target.
pub open spec fn directive_unless(
    filter: Seq<char>,
    target: Seq<char>,
    directive: Seq<char>,
) -> Seq<Seq<char>> {
    if contains_text(ascii_lower(filter), target) {
        Seq::empty()
    } else {
        seq![directive]
    }
}

fn push_directive(out: &mut Vec<String>, lower: &str, target: &str, directive: &str)
    ensures
        texts(final(out)@) == texts(old(out)@) + (if contains_text(lower@, target@) {
            Seq::empty()
        } else {
            seq![directive@]
        }),
{
    let ghost before = texts(out@);
    if !str_contains(lower, target) {
        push_text(out, directive.to_owned());
        assert(texts(out@) =~= before + seq![directive@]);
    } else {
        assert(texts(out@) =~= before + Seq::<Seq<char>>::empty());
    }
}

/// The directives that are added to a filter: they quieten what it does not speak of.
pub fn default_directives(filter: &str) -> (r: Vec<String>)
    ensures
        texts(r@) == directive_unless(filter@, "rmcp::service"@, "rmcp::service=info"@)
            + directive_unless(
            filter@,
            "rmcp::handler::server"@,
            "rmcp::handler::server=info"@,
        ) + directive_unless(filter@, "hf_hub"@, "hf_hub=warn"@),
{
    let lower = to_ascii_lowercase(filter);
    let mut out: Vec<String> = Vec::new();
    assert(texts(out@) =~= Seq::<Seq<char>>::empty());
    push_directive(&mut out, lower.as_str(), "rmcp::service", "rmcp::service=info");
    assert(texts(out@) =~= directive_unless(filter@, "rmcp::service"@, "rmcp::service=info"@));
    push_directive(
        &mut out,
        lower.as_str(),
        "rmcp::handler::server",
        "rmcp::handler::server=info",
    );
    push_directive(&mut out, lower.as_str(), "hf_hub", "hf_hub=warn");
    out
}

/// Where messages are written to, unless the setting is blank.
pub fn choose_log_dir(value: &Option<String>) -> (r: Option<String>)
    ensures
        text_of(r) == match text_of(*value) {
            Some(text) => if trimmed(text).len() > 0 {
                Some(trimmed(text))
            } else {
                None
            },
            None => None,
        },
{
    match value {
        Some(text) => {
            let inner = trim_str(text.as_str());
            if inner.as_str().is_empty() {
                None
            } else {
                Some(inner)
            }
        },
        None => None,
    }
}

/// The file that messages are written to: the path itself where it has an extension, else
/// a file of its own in it.
pub open spec fn log_file_of(path: Seq<char>) -> Seq<char> {
    if extension_of(path) is Some {
        path
    } else {
        path_in(path, "index-mcp.log"@)
    }
}

/// The file that messages are written to, and whether the path names it itself.
pub fn log_file(path: &str) -> (r: (String, bool))
    ensures
        r.0@ == log_file_of(path@),
        r.1 == (extension_of(path@) is Some),
{
    match extension(path) {
        Some(_) => (path.to_owned(), true),
        None => (join_path(path, "index-mcp.log"), false),
    }
}

/// What the arguments say of watching.
#[derive(Debug)]
pub struct WatchArguments {
    pub cwd: Option<String>,
    pub watch_root: Option<String>,
    pub watch_debounce: Option<u64>,
    pub watch_no_initial: bool,
    pub watch_quiet: bool,
    pub watch_database: Option<String>,
}

/// The pause before changes are ingested, in milliseconds, where none is set.
pub const DEFAULT_DEBOUNCE_MS: u64 = 500;

/// The shortest pause before changes are ingested, in milliseconds.
pub const MIN_DEBOUNCE_MS: u64 = 50;

/// What a watcher is asked to do.
pub fn watcher_options(arguments: &WatchArguments) -> (r: WatcherOptions)
    ensures
        r.root@ == text_or(first_of(text_of(arguments.watch_root), text_of(arguments.cwd)), "."@),
        r.database_name@ == text_or(text_of(arguments.watch_database), DEFAULT_DB_FILENAME@),
        r.debounce_ms == (match arguments.watch_debounce {
            Some(ms) => if ms < MIN_DEBOUNCE_MS {
                MIN_DEBOUNCE_MS
            } else {
                ms
            },
            None => DEFAULT_DEBOUNCE_MS,
        }),
        r.run_initial == !arguments.watch_no_initial,
        r.quiet == arguments.watch_quiet,
{
    let debounce_ms: u64 = match arguments.watch_debounce {
        Some(ms) => if ms < MIN_DEBOUNCE_MS {
            MIN_DEBOUNCE_MS
        } else {
            ms
        },
        None => DEFAULT_DEBOUNCE_MS,
    };
    WatcherOptions {
        root: or_text(pick(&arguments.watch_root, &arguments.cwd), "."),
        database_name: or_text(arguments.watch_database.clone(), DEFAULT_DB_FILENAME),
        debounce_ms,
        run_initial: !arguments.watch_no_initial,
        quiet: arguments.watch_quiet,
    }
}

/// A text names a level exactly where it is the name of that level in letters of any case; a
/// warning may be written out too.
pub proof fn law_level_named(text: Seq<char>, level: LogLevel)
    ensures
        level_of(text) == Some(level) <==> ascii_lower(text) == ascii_lower(level.name()) || (level
            is Warn && ascii_lower(text) == "warning"@),
        level_of(ascii_lower(text)) == level_of(text),
{
    reveal_strlit("ERROR");
    reveal_strlit("WARN");
    reveal_strlit("INFO");
    reveal_strlit("DEBUG");
    reveal_strlit("TRACE");
    reveal_strlit("error");
    reveal_strlit("warn");
    reveal_strlit("warning");
    reveal_strlit("info");
    reveal_strlit("debug");
    reveal_strlit("trace");
    assert(ascii_lower(ascii_lower(text)) =~= ascii_lower(text));
    assert(ascii_lower("ERROR"@) =~= "error"@);
    assert(ascii_lower("WARN"@) =~= "warn"@);
    assert(ascii_lower("INFO"@) =~= "info"@);
    assert(ascii_lower("DEBUG"@) =~= "debug"@);
    assert(ascii_lower("TRACE"@) =~= "trace"@);
    assert("error"@[0] == 'e' && "warn"@[0] == 'w' && "warning"@[0] == 'w' && "info"@[0] == 'i');
    assert("debug"@[0] == 'd' && "trace"@[0] == 't');
    assert("warn"@.len() == 4 && "warning"@.len() == 7);
}

/// The levels, from the one that says least to the one that says most.
pub proof fn law_levels_ordered()
    ensures
        LogLevel::Error.rank() < LogLevel::Warn.rank() < LogLevel::Info.rank(),
        LogLevel::Info.rank() < LogLevel::Debug.rank() < LogLevel::Trace.rank(),
{
}

/// A switch is read without regard to case and to white space around it. It is on in four
/// words and off in four others.
pub proof fn law_switch(value: Seq<char>)
    ensures
        switch_of(ascii_lower(trimmed(value))) == switch_of(value),
        switch_of(value) == Some(true) <==> seq!["1"@, "true"@, "yes"@, "on"@].contains(
            ascii_lower(trimmed(value)),
        ),
        switch_of(value) == Some(false) <==> seq!["0"@, "false"@, "no"@, "off"@].contains(
            ascii_lower(trimmed(value)),
        ),
{
    reveal_strlit("1");
    reveal_strlit("true");
    reveal_strlit("yes");
    reveal_strlit("on");
    reveal_strlit("0");
    reveal_strlit("false");
    reveal_strlit("no");
    reveal_strlit("off");
    let yes = seq!["1"@, "true"@, "yes"@, "on"@];
    let no = seq!["0"@, "false"@, "no"@, "off"@];
    let u = trimmed(value);
    let t = ascii_lower(u);
    crate::text::lemma_trimmed(value);
    assert(t.len() > 0 ==> t[0] == crate::text::lower_char(u[0]));
    assert(t.len() > 0 ==> t.last() == crate::text::lower_char(u.last()));
    crate::text::law_trimmed_stays(t);
    assert(ascii_lower(t) =~= t);
    assert(yes[0] == "1"@ && yes[1] == "true"@ && yes[2] == "yes"@ && yes[3] == "on"@);
    assert(no[0] == "0"@ && no[1] == "false"@ && no[2] == "no"@ && no[3] == "off"@);
    assert("1"@[0] == '1' && "0"@[0] == '0' && "true"@[0] == 't' && "false"@[0] == 'f');
    assert("yes"@[0] == 'y' && "no"@[0] == 'n' && "on"@[0] == 'o' && "off"@[0] == 'o');
    assert("on"@.len() == 2 && "off"@.len() == 3);
}

/// What the arguments say goes before what the environment says, and what is usual holds where
/// neither says anything.
pub proof fn law_first_said(a: Seq<char>, other: Option<Seq<char>>, usual: Seq<char>)
    ensures
        text_or(first_of(Some(a), other), usual) == a,
        text_or(first_of(None, Some(a)), usual) == a,
        text_or(first_of(None, None), usual) == usual,
{
}

/// A directive is added exactly where the filter, in letters of any case, does not speak of
/// its target.
pub proof fn law_directive(filter: Seq<char>, target: Seq<char>, directive: Seq<char>)
    ensures
        directive_unless(filter, target, directive).len() <= 1,
        directive_unless(filter, target, directive).contains(directive) <==> !contains_text(
            ascii_lower(filter),
            target,
        ),
{
    let one = seq![directive];
    assert(one[0] == directive);
}

/// Messages go to the file that is named, or to a file in the directory that is.
pub proof fn law_log_file(path: Seq<char>)
    ensures
        extension_of(path) is Some ==> log_file_of(path) == path,
        extension_of(path) is None && path.len() > 0 && path.last() != '/' ==> log_file_of(path)
            == path + "/index-mcp.log"@,
        extension_of(path) is None && path.len() > 0 && path.last() == '/' ==> log_file_of(path)
            == path + "index-mcp.log"@,
{
    reveal_strlit("index-mcp.log");
    reveal_strlit("/index-mcp.log");
    assert(path + "/index-mcp.log"@ =~= path.push('/') + "index-mcp.log"@);
}

/// Where a level is set, messages of it and of those that say less are logged, and no others.
pub proof fn law_admitted(limit: LogLevel, level: LogLevel, answer: bool)
    requires
        call_ensures(LogLevel::admits, (&limit, level), answer),
    ensures
        level == limit ==> answer,
        level is Error ==> answer,
        limit is Trace ==> answer,
        limit is Error && !(level is Error) ==> !answer,
        level is Trace && !(limit is Trace) ==> !answer,
{
}

/// A watcher waits at least 50 milliseconds, and 500 where nothing is said; it begins with an
/// ingestion unless that is not wanted.
pub proof fn law_watcher_options(arguments: &WatchArguments, options: WatcherOptions)
    requires
        call_ensures(watcher_options, (arguments,), options),
    ensures
        options.debounce_ms >= 50,
        arguments.watch_debounce is None ==> options.debounce_ms == 500,
        arguments.watch_debounce matches Some(ms) ==> ms >= 50 ==> options.debounce_ms == ms,
        options.run_initial <==> !arguments.watch_no_initial,
        options.quiet <==> arguments.watch_quiet,
        arguments.watch_root matches Some(root) ==> options.root@ == root@,
        arguments.watch_root is None ==> (arguments.cwd matches Some(cwd) ==> options.root@
            == cwd@),
        arguments.watch_root is None && arguments.cwd is None ==> options.root@ == "."@,
{
}

/// The server's own filter goes before the common one, and that before the argument.
pub proof fn law_log_filter(
    own: &Option<String>,
    common: &Option<String>,
    argument: &str,
    filter: String,
)
    requires
        call_ensures(choose_log_filter, (own, common, argument), filter),
    ensures
        *own matches Some(t) ==> filter@ == t@,
        *own is None ==> (*common matches Some(t) ==> filter@ == t@),
        *own is None && *common is None ==> filter@ == argument@,
{
}

/// Messages go to the console unless a switch says no, and to a directory that is not blank.
pub proof fn law_log_places(
    switch: &Option<String>,
    console: bool,
    value: &Option<String>,
    dir: Option<String>,
)
    requires
        call_ensures(console_enabled, (switch,), console),
        call_ensures(choose_log_dir, (value,), dir),
    ensures
        *switch is None ==> console,
        *switch matches Some(t) ==> (console <==> switch_of(t@) != Some(false)),
        *value is None ==> dir is None,
        *value matches Some(t) ==> (dir is Some <==> trimmed(t@).len() > 0),
        *value matches Some(t) ==> (dir matches Some(d) ==> d@ == trimmed(t@)),
{
}

/// A server is set up by its arguments before its environment, and only a level that does not
/// exist keeps it from that.
pub proof fn law_configured(
    args: &Args,
    surroundings: &ConfigSurroundings,
    answer: Result<Config, String>,
)
    requires
        call_ensures(Config::from_args, (args, surroundings), answer),
    ensures
        args.log_level is None && surroundings.log_level is None ==> answer is Ok,
        args.log_level matches Some(t) ==> (answer is Ok <==> level_of(t@) is Some),
        args.log_level matches Some(t) ==> (answer matches Ok(c) ==> level_of(t@) == Some(
            c.log_level,
        )),
        args.log_level is None && surroundings.log_level is None ==> (answer matches Ok(c)
            ==> c.log_level is Info),
        args.working_dir matches Some(t) ==> (answer matches Ok(c) ==> c.working_dir@ == t@),
        args.working_dir is None ==> (surroundings.working_dir matches Some(t) ==> (answer matches
            Ok(c) ==> c.working_dir@ == t@)),
        args.database matches Some(t) ==> (answer matches Ok(c) ==> c.default_database_name@ == t@),
{
}

} // verus!
