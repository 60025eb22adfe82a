//! Settings: logging, the recognition backend, who may use the debug
//! commands, and where drops are analyzed.

use vstd::prelude::*;

verus! {

/// Whether the log is also written to a file, and to which.
#[derive(Debug, Clone, PartialEq, Eq)]
pub struct FileLog {
    pub enabled: bool,
    pub path: String,
}

/// How much is logged, and where.
#[derive(Debug, Clone, PartialEq, Eq)]
pub struct Log {
    pub level: String,
    pub file: FileLog,
}

/// Which recognition backend is used, by name.
#[derive(Debug, Clone, PartialEq, Eq)]
pub struct Tesseract {
    pub backend: String,
}

/// Who may use the debug commands.
#[derive(Debug, Clone, PartialEq, Eq)]
pub struct Debug {
    pub allowed_users: Vec<u64>,
}

/// A list of servers and channels, which counts only while it is enabled.
#[derive(Debug, Clone, PartialEq, Eq)]
pub struct List {
    pub enabled: bool,
    pub servers: Vec<u64>,
    pub channels: Vec<u64>,
}

/// Whether the drops of one card bot are analyzed, and where.
#[derive(Debug, Clone, PartialEq, Eq)]
pub struct DropAnalyzer {
    pub enabled: bool,
    pub blacklist: List,
    pub whitelist: List,
}

/// What the bot does, card bot by card bot.
#[derive(Debug, Clone, PartialEq, Eq)]
pub struct Features {
    pub katana_drop_analysis: DropAnalyzer,
    pub sofa_drop_analysis: DropAnalyzer,
}

/// All settings.
#[derive(Debug, Clone, PartialEq, Eq)]
pub struct Config {
    pub log: Log,
    pub tesseract: Tesseract,
    pub debug: Debug,
    pub features: Features,
}

/// The recognition backend a process runs with.
#[derive(Debug, Clone, Copy, PartialEq, Eq, Structural)]
pub enum OcrBackend {
    /// Engines kept in a pool inside the process.
    Pooled,
    /// One outside process per call.
    Subprocess,
}

/// A list that is switched off and names nothing.
pub open spec fn is_empty_list(l: List) -> bool {
    !l.enabled && l.servers@.len() == 0 && l.channels@.len() == 0
}

/// An analyzer that is switched off, with two empty lists.
pub open spec fn is_idle_analyzer(a: DropAnalyzer) -> bool {
    !a.enabled && is_empty_list(a.blacklist) && is_empty_list(a.whitelist)
}

/// The settings a fresh installation starts with.
pub open spec fn is_default_config(c: Config) -> bool {
    &&& c.log.level@ == "info"@
    &&& !c.log.file.enabled
    &&& c.log.file.path@ == "swordfish.log"@
    &&& c.tesseract.backend@ == "libtesseract"@
    &&& c.debug.allowed_users@.len() == 0
    &&& is_idle_analyzer(c.features.katana_drop_analysis)
    &&& is_idle_analyzer(c.features.sofa_drop_analysis)
}

/// The backend that the name `name` selects.
pub open spec fn backend_named(name: Seq<char>) -> Option<OcrBackend> {
    if name == "libtesseract"@ {
        Some(OcrBackend::Pooled)
    } else if name == "subprocess"@ {
        Some(OcrBackend::Subprocess)
    } else {
        None
    }
}

fn empty_list() -> (l: List)
    ensures
        is_empty_list(l),
{
    List { enabled: false, servers: Vec::new(), channels: Vec::new() }
}

fn idle_analyzer() -> (a: DropAnalyzer)
    ensures
        is_idle_analyzer(a),
{
    DropAnalyzer { enabled: false, blacklist: empty_list(), whitelist: empty_list() }
}

impl Config {
    /// The settings a fresh installation starts with.
    pub fn new() -> (c: Config)
        ensures
            is_default_config(c),
    {
        Config {
            log: Log {
                level: "info".to_owned(),
                file: FileLog { enabled: false, path: "swordfish.log".to_owned() },
            },
            tesseract: Tesseract { backend: "libtesseract".to_owned() },
            debug: Debug { allowed_users: Vec::new() },
            features: Features {
                katana_drop_analysis: idle_analyzer(),
                sofa_drop_analysis: idle_analyzer(),
            },
        }
    }

    /// The backend that these settings select, if they name one.
    pub fn backend(&self) -> (b: Option<OcrBackend>)
        ensures
            b == backend_named(self.tesseract.backend@),
    {
        select_backend(self.tesseract.backend.as_str())
    }
}

/// The backend that `name` selects: `libtesseract` the pooled engines,
/// `subprocess` the outside process, anything else none.
pub fn select_backend(name: &str) -> (b: Option<OcrBackend>)
    ensures
        b == backend_named(name@),
{
    let given = crate::text::chars_of(name);
    let pooled = crate::text::chars_of("libtesseract");
    let outside = crate::text::chars_of("subprocess");
    if same_text(&given, &pooled) {
        Some(OcrBackend::Pooled)
    } else if same_text(&given, &outside) {
        Some(OcrBackend::Subprocess)
    } else {
        None
    }
}

/// How a recognition engine is set up.
#[derive(Debug, Clone, PartialEq, Eq)]
pub struct EngineSettings {
    pub language: String,
    /// How the page is cut into blocks of text.
    pub page_seg_mode: u32,
    /// Which engine reads the text.
    pub engine_mode: u32,
    /// The resolution that the engine is told to assume, if any.
    pub dpi: Option<u32>,
    /// The only characters that the engine may report, if it is held to any.
    pub whitelist: Option<String>,
}

/// The settings of an engine of `backend`: English text, one uniform block
/// per picture, the neural engine alone; the pooled engines are told a
/// resolution of 70 dots per inch; an engine for numbers reports digits only.
pub open spec fn is_engine_setup(s: EngineSettings, backend: OcrBackend, numeric_only: bool) -> bool {
    &&& s.language@ == "eng"@
    &&& s.page_seg_mode == 6
    &&& s.engine_mode == 1
    &&& s.dpi == if backend == OcrBackend::Pooled {
        Some(70u32)
    } else {
        None
    }
    &&& numeric_only ==> s.whitelist is Some && s.whitelist->0@ == "0123456789"@
    &&& !numeric_only ==> s.whitelist is None
}

/// The settings of an engine of `backend`.
pub fn engine_settings(backend: OcrBackend, numeric_only: bool) -> (s: EngineSettings)
    ensures
        is_engine_setup(s, backend, numeric_only),
{
    EngineSettings {
        language: "eng".to_owned(),
        page_seg_mode: 6,
        engine_mode: 1,
        dpi: match backend {
            OcrBackend::Pooled => Some(70),
            OcrBackend::Subprocess => None,
        },
        whitelist: if numeric_only {
            Some("0123456789".to_owned())
        } else {
            None
        },
    }
}

fn same_text(a: &Vec<char>, b: &Vec<char>) -> (same: bool)
    ensures
        same == (a@ == b@),
{
    if a.len() != b.len() {
        return false;
    }
    let same = crate::text::is_match_at(a, b, 0);
    assert(a@.subrange(0, a@.len() as int) =~= a@);
    same
}

fn holds(ids: &Vec<u64>, id: u64) -> (found: bool)
    ensures
        found == ids@.contains(id),
{
    let mut i: usize = 0;
    while i < ids.len()
        invariant
            i <= ids.len(),
            forall|j: int| 0 <= j < i ==> ids@[j] != id,
        decreases ids.len() - i,
    {
        if ids[i] == id {
            return true;
        }
        i += 1;
    }
    false
}

/// A message is blacklisted where the list is enabled, the message comes
/// from a server, and the list names that server or the channel.
pub open spec fn in_blacklist(guild: Option<u64>, channel: u64, list: List) -> bool {
    list.enabled && guild is Some && (list.servers@.contains(guild->0) || list.channels@.contains(
        channel,
    ))
}

/// A message is whitelisted where the list is disabled, or the message comes
/// from a server and the list names that server or the channel.
pub open spec fn in_whitelist(guild: Option<u64>, channel: u64, list: List) -> bool {
    !list.enabled || (guild is Some && (list.servers@.contains(guild->0)
        || list.channels@.contains(channel)))
}

/// Tells whether a message from server `guild`, if any, in channel `channel`
/// is shut out by `blacklist`.
pub fn message_in_blacklist(guild: Option<u64>, channel: u64, blacklist: &List) -> (b: bool)
    ensures
        b == in_blacklist(guild, channel, *blacklist),
{
    if !blacklist.enabled {
        return false;
    }
    match guild {
        None => false,
        Some(id) => holds(&blacklist.servers, id) || holds(&blacklist.channels, channel),
    }
}

/// Tells whether a message from server `guild`, if any, in channel `channel`
/// is let in by `whitelist`.
pub fn message_in_whitelist(guild: Option<u64>, channel: u64, whitelist: &List) -> (b: bool)
    ensures
        b == in_whitelist(guild, channel, *whitelist),
{
    if !whitelist.enabled {
        return true;
    }
    match guild {
        None => false,
        Some(id) => holds(&whitelist.servers, id) || holds(&whitelist.channels, channel),
    }
}

} // verus!
