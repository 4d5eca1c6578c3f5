//! Application configuration, kept in a plain-text `.env` file inside the
//! data folder that the user selected. The folder is found through a small
//! pointer file in the configuration folder of the operating system. Nothing
//! here touches a disk: the functions take and give the contents of files.
use vstd::prelude::*;
use crate::path::{FilePath, PathModel};
use crate::text;
use crate::text::{find_char, from_chars, lines, same_text, to_chars, trim};
use crate::text_map;
use crate::text_map::TextMap;

verus! {

pub const DEFAULT_LIVE_MODEL: &'static str = "gemini-3.5-live-translate-preview";

pub const DEFAULT_CLEANUP_MODEL: &'static str = "gemini-3.1-flash-lite";

/// The documented WebSocket endpoint for live translation is v1beta; a session
/// still flips to v1alpha if setup keeps getting rejected.
pub const DEFAULT_LIVE_API_VERSION: &'static str = "v1beta";

pub const KEY_API: &'static str = "GEMINI_API_KEY";

pub const KEY_LIVE_MODEL: &'static str = "SALLY_LIVE_MODEL";

pub const KEY_CLEANUP_MODEL: &'static str = "SALLY_CLEANUP_MODEL";

pub const KEY_TARGET_LANG: &'static str = "SALLY_TARGET_LANGUAGE";

pub const KEY_UI_LANG: &'static str = "SALLY_UI_LANGUAGE";

pub const KEY_CAPTURE_APP: &'static str = "SALLY_CAPTURE_APP";

pub const KEY_ALWAYS_ON_TOP: &'static str = "SALLY_ALWAYS_ON_TOP";

pub const KEY_MIC_DEVICE: &'static str = "SALLY_MIC_DEVICE";

pub const KEY_SYSTEM_DEVICE: &'static str = "SALLY_SYSTEM_DEVICE";

pub const KEY_READOUT: &'static str = "SALLY_READOUT";

pub const KEY_LIVE_API_VERSION: &'static str = "SALLY_LIVE_API_VERSION";

/// What stands in place of an API key.
pub const REDACTED: &'static str = "[REDACTED]";

#[derive(Debug)]
pub struct AppConfig {
    pub data_dir: FilePath,
    pub api_key: String,
    pub live_model: String,
    pub cleanup_model: String,
    pub target_language: String,
    pub ui_language: String,
    pub always_on_top: bool,
    pub mic_device: String,
    pub system_device: String,
    /// Executable name of the one application whose audio is captured; empty
    /// for the entire system.
    pub capture_app: String,
    /// Read translated audio aloud. Off by default.
    pub readout_enabled: bool,
    /// Live API version (`v1alpha` or `v1beta`).
    pub live_api_version: String,
}

/// An [`AppConfig`] by its characters.
#[verifier::ext_equal]
pub struct ConfigModel {
    pub data_dir: PathModel,
    pub api_key: Seq<char>,
    pub live_model: Seq<char>,
    pub cleanup_model: Seq<char>,
    pub target_language: Seq<char>,
    pub ui_language: Seq<char>,
    pub always_on_top: bool,
    pub mic_device: Seq<char>,
    pub system_device: Seq<char>,
    pub capture_app: Seq<char>,
    pub readout_enabled: bool,
    pub live_api_version: Seq<char>,
}

impl View for AppConfig {
    type V = ConfigModel;

    open spec fn view(&self) -> ConfigModel {
        ConfigModel {
            data_dir: self.data_dir@,
            api_key: self.api_key@,
            live_model: self.live_model@,
            cleanup_model: self.cleanup_model@,
            target_language: self.target_language@,
            ui_language: self.ui_language@,
            always_on_top: self.always_on_top,
            mic_device: self.mic_device@,
            system_device: self.system_device@,
            capture_app: self.capture_app@,
            readout_enabled: self.readout_enabled,
            live_api_version: self.live_api_version@,
        }
    }
}

impl Clone for AppConfig {
    fn clone(&self) -> (r: Self)
        ensures
            r@ == self@,
    {
        AppConfig {
            data_dir: self.data_dir.clone(),
            api_key: self.api_key.clone(),
            live_model: self.live_model.clone(),
            cleanup_model: self.cleanup_model.clone(),
            target_language: self.target_language.clone(),
            ui_language: self.ui_language.clone(),
            always_on_top: self.always_on_top,
            mic_device: self.mic_device.clone(),
            system_device: self.system_device.clone(),
            capture_app: self.capture_app.clone(),
            readout_enabled: self.readout_enabled,
            live_api_version: self.live_api_version.clone(),
        }
    }
}

/// A copy of the configuration for the interface: the API key itself never
/// leaves the core.
#[derive(Debug)]
pub struct RedactedConfig {
    pub data_dir: FilePath,
    pub has_api_key: bool,
    pub live_model: String,
    pub cleanup_model: String,
    pub target_language: String,
    pub ui_language: String,
    pub always_on_top: bool,
    pub mic_device: String,
    pub system_device: String,
    pub capture_app: String,
    pub readout_enabled: bool,
}

/// A [`RedactedConfig`] by its characters.
#[verifier::ext_equal]
pub struct RedactedModel {
    pub data_dir: PathModel,
    pub has_api_key: bool,
    pub live_model: Seq<char>,
    pub cleanup_model: Seq<char>,
    pub target_language: Seq<char>,
    pub ui_language: Seq<char>,
    pub always_on_top: bool,
    pub mic_device: Seq<char>,
    pub system_device: Seq<char>,
    pub capture_app: Seq<char>,
    pub readout_enabled: bool,
}

impl View for RedactedConfig {
    type V = RedactedModel;

    open spec fn view(&self) -> RedactedModel {
        RedactedModel {
            data_dir: self.data_dir@,
            has_api_key: self.has_api_key,
            live_model: self.live_model@,
            cleanup_model: self.cleanup_model@,
            target_language: self.target_language@,
            ui_language: self.ui_language@,
            always_on_top: self.always_on_top,
            mic_device: self.mic_device@,
            system_device: self.system_device@,
            capture_app: self.capture_app@,
            readout_enabled: self.readout_enabled,
        }
    }
}

// ---------------------------------------------------------------------------
// Model
// ---------------------------------------------------------------------------

/// The key and value of a line `key=value`; nothing for blank lines, comments
/// and lines without `=`.
pub open spec fn env_line(line: Seq<char>) -> Option<(Seq<char>, Seq<char>)> {
    let t = text::trimmed(line);
    let p = text::position(t, '=') as int;
    if t.len() == 0 || t[0] == '#' || p >= t.len() {
        None
    } else {
        Some((text::trimmed(t.take(p)), text::trimmed(t.skip(p + 1))))
    }
}

/// What a list of lines sets, later lines over earlier ones.
pub open spec fn env_of(ls: Seq<Seq<char>>) -> Map<Seq<char>, Seq<char>>
    decreases ls.len(),
{
    if ls.len() == 0 {
        Map::empty()
    } else {
        let m = env_of(ls.drop_last());
        match env_line(ls.last()) {
            None => m,
            Some((k, v)) => m.insert(k, v),
        }
    }
}

/// What the contents of a `.env` file set.
pub open spec fn env_map(s: Seq<char>) -> Map<Seq<char>, Seq<char>> {
    env_of(text::lines_of(s))
}

/// The value of `key`, empty when it is missing.
pub open spec fn value_of(m: Map<Seq<char>, Seq<char>>, key: Seq<char>) -> Seq<char> {
    if m.contains_key(key) {
        m[key]
    } else {
        Seq::empty()
    }
}

/// The value of `key`, or `default` when it is missing or empty.
pub open spec fn value_or(
    m: Map<Seq<char>, Seq<char>>,
    key: Seq<char>,
    default: Seq<char>,
) -> Seq<char> {
    if value_of(m, key).len() > 0 {
        m[key]
    } else {
        default
    }
}

pub open spec fn on_off(b: bool) -> Seq<char> {
    if b {
        "on"@
    } else {
        "off"@
    }
}

/// The lines that set the pairs of a list.
pub open spec fn env_rows(p: Seq<(Seq<char>, Seq<char>)>) -> Seq<char>
    decreases p.len(),
{
    if p.len() == 0 {
        Seq::empty()
    } else {
        env_rows(p.drop_last()) + p.last().0 + "="@ + p.last().1 + "\n"@
    }
}

/// The comment at the beginning of a `.env` file.
pub open spec fn env_header() -> Seq<char> {
    "# Sally configuration. The API key is stored in plain text by design;\n"@
        + "# anyone who can read this folder can obtain it.\n"@
}

/// The contents of a `.env` file with the given settings, in order of their
/// keys.
pub open spec fn env_text(m: Map<Seq<char>, Seq<char>>) -> Seq<char> {
    env_header() + env_rows(text_map::in_order(m))
}

impl ConfigModel {
    /// The configuration before anything is set.
    pub open spec fn initial(data_dir: PathModel) -> ConfigModel {
        ConfigModel {
            data_dir,
            api_key: Seq::empty(),
            live_model: DEFAULT_LIVE_MODEL@,
            cleanup_model: DEFAULT_CLEANUP_MODEL@,
            target_language: "Vietnamese"@,
            ui_language: "en"@,
            always_on_top: false,
            mic_device: Seq::empty(),
            system_device: Seq::empty(),
            capture_app: Seq::empty(),
            readout_enabled: false,
            live_api_version: DEFAULT_LIVE_API_VERSION@,
        }
    }

    /// The configuration that settings stand for, with the defaults for what
    /// is missing.
    pub open spec fn from_env(data_dir: PathModel, m: Map<Seq<char>, Seq<char>>) -> ConfigModel {
        let d = ConfigModel::initial(data_dir);
        ConfigModel {
            data_dir,
            api_key: value_of(m, KEY_API@),
            live_model: value_or(m, KEY_LIVE_MODEL@, d.live_model),
            cleanup_model: value_or(m, KEY_CLEANUP_MODEL@, d.cleanup_model),
            target_language: value_or(m, KEY_TARGET_LANG@, d.target_language),
            ui_language: value_or(m, KEY_UI_LANG@, d.ui_language),
            always_on_top: m.contains_key(KEY_ALWAYS_ON_TOP@) && m[KEY_ALWAYS_ON_TOP@] != "off"@,
            mic_device: value_of(m, KEY_MIC_DEVICE@),
            system_device: value_of(m, KEY_SYSTEM_DEVICE@),
            capture_app: value_of(m, KEY_CAPTURE_APP@),
            readout_enabled: m.contains_key(KEY_READOUT@) && m[KEY_READOUT@] == "on"@,
            live_api_version: value_or(m, KEY_LIVE_API_VERSION@, d.live_api_version),
        }
    }

    /// What a `.env` file with these contents stands for; without a file, the
    /// defaults.
    pub open spec fn loaded(data_dir: PathModel, env: Option<Seq<char>>) -> ConfigModel {
        match env {
            None => ConfigModel::initial(data_dir),
            Some(s) => ConfigModel::from_env(data_dir, env_map(s)),
        }
    }

    /// `m` with this configuration set in it.
    pub open spec fn set_in(self, m: Map<Seq<char>, Seq<char>>) -> Map<Seq<char>, Seq<char>> {
        m.insert(KEY_API@, self.api_key)
            .insert(KEY_LIVE_MODEL@, self.live_model)
            .insert(KEY_CLEANUP_MODEL@, self.cleanup_model)
            .insert(KEY_TARGET_LANG@, self.target_language)
            .insert(KEY_UI_LANG@, self.ui_language)
            .insert(KEY_ALWAYS_ON_TOP@, on_off(self.always_on_top))
            .insert(KEY_MIC_DEVICE@, self.mic_device)
            .insert(KEY_SYSTEM_DEVICE@, self.system_device)
            .insert(KEY_CAPTURE_APP@, self.capture_app)
            .insert(KEY_READOUT@, on_off(self.readout_enabled))
            .insert(KEY_LIVE_API_VERSION@, self.live_api_version)
    }

    /// The settings to save over a file with the given contents.
    pub open spec fn saved_map(self, existing: Option<Seq<char>>) -> Map<Seq<char>, Seq<char>> {
        self.set_in(
            match existing {
                None => Map::empty(),
                Some(s) => env_map(s),
            },
        )
    }

    pub open spec fn redaction(self) -> RedactedModel {
        RedactedModel {
            data_dir: self.data_dir,
            has_api_key: !text::is_blank(self.api_key),
            live_model: self.live_model,
            cleanup_model: self.cleanup_model,
            target_language: self.target_language,
            ui_language: self.ui_language,
            always_on_top: self.always_on_top,
            mic_device: self.mic_device,
            system_device: self.system_device,
            capture_app: self.capture_app,
            readout_enabled: self.readout_enabled,
        }
    }
}

/// The characters of an optional text.
pub open spec fn opt_text(s: Option<&str>) -> Option<Seq<char>> {
    match s {
        Some(s) => Some(s@),
        None => None,
    }
}

// ---------------------------------------------------------------------------
// Configuration
// ---------------------------------------------------------------------------

/// What the contents of a `.env` file set.
pub fn parse_env(s: &str) -> (m: TextMap)
    ensures
        text_map::as_map(m@) == env_map(s@),
{
    let mut m = TextMap::new();
    let ls = lines(s);
    let mut i: usize = 0;
    assert(text::texts(ls@).take(0) =~= Seq::empty());
    while i < ls.len()
        invariant
            i <= ls.len(),
            text_map::as_map(m@) == env_of(text::texts(ls@).take(i as int)),
        decreases ls.len() - i,
    {
        proof {
            let all = text::texts(ls@);
            assert(all.take(i + 1).drop_last() =~= all.take(i as int));
            assert(all.take(i + 1).last() == ls[i as int]@);
        }
        let line = to_chars(&trim(&ls[i]));
        assert(line@.skip(0) =~= line@);
        let p = find_char(&line, 0, '=');
        if line.len() > 0 && line[0] != '#' && p < line.len() {
            let key = from_chars(&line, 0, p);
            let value = from_chars(&line, p + 1, line.len());
            assert(key@ =~= line@.take(p as int));
            assert(value@ =~= line@.skip(p + 1));
            m.insert(&trim(&key), &trim(&value));
        }
        i += 1;
    }
    assert(text::texts(ls@).take(i as int) =~= text::texts(ls@));
    m
}

/// The value of `key`, empty when it is missing.
fn value(m: &TextMap, key: &str) -> (r: String)
    ensures
        r@ == value_of(text_map::as_map(m@), key@),
{
    match m.get(key) {
        Some(v) => text::owned(v),
        None => String::new(),
    }
}

/// The value of `key`, or `default` when it is missing or empty.
fn value_unless_empty(m: &TextMap, key: &str, default: &str) -> (r: String)
    ensures
        r@ == value_or(text_map::as_map(m@), key@, default@),
{
    match m.get(key) {
        Some(v) => if v.is_empty() {
            text::owned(default)
        } else {
            text::owned(v)
        },
        None => text::owned(default),
    }
}

/// The value of `key` is `v`.
fn has_value(m: &TextMap, key: &str, v: &str) -> (r: bool)
    ensures
        r == (text_map::as_map(m@).contains_key(key@) && text_map::as_map(m@)[key@] == v@),
{
    match m.get(key) {
        Some(x) => same_text(x, v),
        None => false,
    }
}

fn switch(b: bool) -> (r: &'static str)
    ensures
        r@ == on_off(b),
{
    if b {
        "on"
    } else {
        "off"
    }
}

impl AppConfig {
    pub fn new(data_dir: FilePath) -> (r: Self)
        ensures
            r@ == ConfigModel::initial(data_dir@),
    {
        AppConfig {
            data_dir,
            api_key: String::new(),
            live_model: text::owned(DEFAULT_LIVE_MODEL),
            cleanup_model: text::owned(DEFAULT_CLEANUP_MODEL),
            target_language: text::owned("Vietnamese"),
            ui_language: text::owned("en"),
            // Off by default: staying pinned above everything during setup
            // proved annoying. The title-bar pin turns it on per window.
            always_on_top: false,
            mic_device: String::new(),
            system_device: String::new(),
            capture_app: String::new(),
            readout_enabled: false,
            live_api_version: text::owned(DEFAULT_LIVE_API_VERSION),
        }
    }

    pub fn env_path(&self) -> (r: FilePath)
        ensures
            r@ == self@.data_dir.joined(".env"@),
    {
        self.data_dir.join(".env")
    }

    pub fn meetings_dir(&self) -> (r: FilePath)
        ensures
            r@ == self@.data_dir.joined("meetings"@),
    {
        self.data_dir.join("meetings")
    }

    pub fn recovery_dir(&self) -> (r: FilePath)
        ensures
            r@ == self@.data_dir.joined(".recovery"@),
    {
        self.data_dir.join(".recovery")
    }

    /// The configuration of a data folder, from the contents of its `.env`
    /// file if there is one, falling back to defaults for missing keys.
    pub fn load(data_dir: FilePath, env: Option<&str>) -> (r: Self)
        ensures
            r@ == ConfigModel::loaded(data_dir@, opt_text(env)),
    {
        match env {
            None => AppConfig::new(data_dir),
            Some(s) => {
                let m = parse_env(s);
                AppConfig {
                    data_dir,
                    api_key: value(&m, KEY_API),
                    live_model: value_unless_empty(&m, KEY_LIVE_MODEL, DEFAULT_LIVE_MODEL),
                    cleanup_model: value_unless_empty(
                        &m,
                        KEY_CLEANUP_MODEL,
                        DEFAULT_CLEANUP_MODEL,
                    ),
                    target_language: value_unless_empty(&m, KEY_TARGET_LANG, "Vietnamese"),
                    ui_language: value_unless_empty(&m, KEY_UI_LANG, "en"),
                    always_on_top: m.get(KEY_ALWAYS_ON_TOP).is_some() && !has_value(
                        &m,
                        KEY_ALWAYS_ON_TOP,
                        "off",
                    ),
                    mic_device: value(&m, KEY_MIC_DEVICE),
                    system_device: value(&m, KEY_SYSTEM_DEVICE),
                    capture_app: value(&m, KEY_CAPTURE_APP),
                    readout_enabled: has_value(&m, KEY_READOUT, "on"),
                    live_api_version: value_unless_empty(
                        &m,
                        KEY_LIVE_API_VERSION,
                        DEFAULT_LIVE_API_VERSION,
                    ),
                }
            },
        }
    }

    /// The contents to write to `.env`. Keys that the existing file holds and
    /// that are not Sally's are preserved.
    pub fn save(&self, existing: Option<&str>) -> (r: String)
        ensures
            r@ == env_text(self@.saved_map(opt_text(existing))),
    {
        let mut m = match existing {
            Some(s) => parse_env(s),
            None => TextMap::new(),
        };
        m.insert(KEY_API, &self.api_key);
        m.insert(KEY_LIVE_MODEL, &self.live_model);
        m.insert(KEY_CLEANUP_MODEL, &self.cleanup_model);
        m.insert(KEY_TARGET_LANG, &self.target_language);
        m.insert(KEY_UI_LANG, &self.ui_language);
        m.insert(KEY_ALWAYS_ON_TOP, switch(self.always_on_top));
        m.insert(KEY_MIC_DEVICE, &self.mic_device);
        m.insert(KEY_SYSTEM_DEVICE, &self.system_device);
        m.insert(KEY_CAPTURE_APP, &self.capture_app);
        m.insert(KEY_READOUT, switch(self.readout_enabled));
        m.insert(KEY_LIVE_API_VERSION, &self.live_api_version);
        proof {
            text_map::lemma_in_order(m@);
        }
        let mut out = text::owned(
            "# Sally configuration. The API key is stored in plain text by design;\n",
        );
        out.push_str("# anyone who can read this folder can obtain it.\n");
        let n = m.len();
        let mut i: usize = 0;
        assert(m@.take(0) =~= Seq::empty());
        assert(out@ =~= env_header() + env_rows(m@.take(0)));
        while i < n
            invariant
                i <= n,
                n == m@.len(),
                out@ == env_header() + env_rows(m@.take(i as int)),
            decreases n - i,
        {
            let (k, v) = m.at(i);
            let ghost before = out@;
            out.push_str(k);
            out.push_str("=");
            out.push_str(v);
            out.push_str("\n");
            proof {
                let p = m@.take(i + 1);
                assert(p.drop_last() =~= m@.take(i as int));
                assert(out@ =~= env_header() + env_rows(p));
            }
            i += 1;
        }
        assert(m@.take(n as int) =~= m@);
        out
    }

    /// A copy that is safe to send to the interface.
    pub fn redacted(&self) -> (r: RedactedConfig)
        ensures
            r@ == self@.redaction(),
    {
        RedactedConfig {
            data_dir: self.data_dir.clone(),
            has_api_key: !text::blank(&self.api_key),
            live_model: self.live_model.clone(),
            cleanup_model: self.cleanup_model.clone(),
            target_language: self.target_language.clone(),
            ui_language: self.ui_language.clone(),
            always_on_top: self.always_on_top,
            mic_device: self.mic_device.clone(),
            system_device: self.system_device.clone(),
            capture_app: self.capture_app.clone(),
            readout_enabled: self.readout_enabled,
        }
    }
}

/// `message` without the API key.
pub open spec fn key_redacted(message: Seq<char>, api_key: Seq<char>) -> Seq<char> {
    if text::is_blank(api_key) {
        message
    } else {
        text::replaced(message, text::trimmed(api_key), REDACTED@)
    }
}

/// Removes every occurrence of the API key from a message before it can reach
/// logs or the interface.
pub fn redact_key(message: &str, api_key: &str) -> (r: String)
    ensures
        r@ == key_redacted(message@, api_key@),
{
    if text::blank(api_key) {
        return text::owned(message);
    }
    text::replace(message, &trim(api_key), REDACTED)
}

// ---------------------------------------------------------------------------
// Data folder
// ---------------------------------------------------------------------------

/// Pointer file in the configuration folder of the operating system that
/// records where the data folder lies.
pub fn data_dir_pointer_path(app_config_dir: &FilePath) -> (r: FilePath)
    ensures
        r@ == app_config_dir@.joined("sally-data-dir.txt"@),
{
    app_config_dir.join("sally-data-dir.txt")
}

/// The data folder that the contents of the pointer file name, if the file
/// could be read and is not blank.
pub fn read_data_dir_pointer(contents: Option<&str>) -> (r: Option<FilePath>)
    ensures
        r is Some <==> contents is Some && !text::is_blank(contents->0@),
        r matches Some(p) ==> p@ == (PathModel {
            root: text::trimmed(contents->0@),
            names: Seq::empty(),
        }),
{
    match contents {
        Some(s) if !text::blank(s) => Some(FilePath::new(&trim(s))),
        _ => None,
    }
}

} // verus!
