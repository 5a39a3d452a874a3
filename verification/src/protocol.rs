//! The records that browsers, daemons and peers exchange, and where the
//! configuration directory lies.

use vstd::prelude::*;

verus! {

/// A cookie set or removed in a browser, as the extension reports it.
#[derive(Clone, Debug)]
pub struct CookieEvent {
    pub id: String,
    pub event: String,
    pub domain: String,
    pub name: String,
    pub value: String,
    pub path: String,
    pub secure: bool,
    pub http_only: bool,
    pub expiration_date: Option<i64>,
    pub same_site: String,
    pub timestamp: i64,
}

/// One visited page in the history.
#[derive(Clone, Debug)]
pub struct HistoryItem {
    pub uuid: String,
    pub url: String,
    pub normalized_url: String,
    pub title: String,
    pub timestamp: i64,
    pub browser: String,
    pub device: String,
    pub hash: String,
    pub visit_type: String,
}

/// What two daemons say to each other: a mutual challenge-response
/// handshake, then history sync.
#[derive(Clone, Debug)]
pub enum PeerMessage {
    HandshakeInit { device_id: String, challenge_hex: String },
    HandshakeResponse { signature_hex: String, challenge_hex: String },
    HandshakeAck { signature_hex: String },
    SyncRequest { last_timestamp: i64 },
    SyncData { visits: Vec<HistoryItem> },
}

/// The operating system the daemon runs on, as far as the configuration
/// directory depends on it.
#[derive(Clone, Copy, Debug, PartialEq, Eq, Structural)]
pub enum Platform {
    Windows,
    MacOs,
    Unix,
}

/// Where the configuration directory starts.
#[derive(Clone, Copy, Debug, PartialEq, Eq, Structural)]
pub enum ConfigBase {
    /// The `APPDATA` environment variable.
    AppData,
    /// The `HOME` environment variable.
    Home,
    /// The `XDG_CONFIG_HOME` environment variable.
    XdgConfigHome,
    /// The current directory, `.`.
    CurrentDir,
}

/// The configuration directory: a base and the path segments below it.
pub struct ConfigDirPlan {
    pub base: ConfigBase,
    pub segments: Vec<String>,
}

/// The views of a list of strings.
pub open spec fn string_views(v: Seq<String>) -> Seq<Seq<char>> {
    v.map_values(|s: String| s@)
}

/// Where the configuration lives, given the platform and which of
/// `APPDATA`, `HOME` and `XDG_CONFIG_HOME` are set: Windows prefers
/// `APPDATA/Besynx`, macOS `HOME/Library/Application Support/Besynx`;
/// otherwise `XDG_CONFIG_HOME/besynx`, then `HOME/.config/besynx`, then `.`.
pub open spec fn config_dir_spec(platform: Platform, has_appdata: bool, has_home: bool, has_xdg: bool) -> (ConfigBase, Seq<Seq<char>>) {
    if platform == Platform::Windows && has_appdata {
        (ConfigBase::AppData, seq!["Besynx"@])
    } else if platform == Platform::MacOs && has_home {
        (ConfigBase::Home, seq!["Library"@, "Application Support"@, "Besynx"@])
    } else if has_xdg {
        (ConfigBase::XdgConfigHome, seq!["besynx"@])
    } else if has_home {
        (ConfigBase::Home, seq![".config"@, "besynx"@])
    } else {
        (ConfigBase::CurrentDir, Seq::empty())
    }
}

/// Chooses the configuration directory (see [`config_dir_spec`]).
pub fn config_dir_plan(platform: Platform, has_appdata: bool, has_home: bool, has_xdg: bool) -> (plan: ConfigDirPlan)
    ensures
        (plan.base, string_views(plan.segments@)) == config_dir_spec(platform, has_appdata, has_home, has_xdg),
{
    let mut segments: Vec<String> = Vec::new();
    let base = if platform == Platform::Windows && has_appdata {
        segments.push(String::from_str("Besynx"));
        ConfigBase::AppData
    } else if platform == Platform::MacOs && has_home {
        segments.push(String::from_str("Library"));
        segments.push(String::from_str("Application Support"));
        segments.push(String::from_str("Besynx"));
        ConfigBase::Home
    } else if has_xdg {
        segments.push(String::from_str("besynx"));
        ConfigBase::XdgConfigHome
    } else if has_home {
        segments.push(String::from_str(".config"));
        segments.push(String::from_str("besynx"));
        ConfigBase::Home
    } else {
        ConfigBase::CurrentDir
    };
    let plan = ConfigDirPlan { base, segments };
    assert(string_views(plan.segments@) =~= config_dir_spec(platform, has_appdata, has_home, has_xdg).1);
    plan
}

/// The fallbacks do not depend on the platform: wherever the Windows
/// (`APPDATA`) and macOS (`HOME`) rules do not apply, the directory is
/// `XDG_CONFIG_HOME/besynx` if that is set, else `HOME/.config/besynx` if
/// `HOME` is set, else `.`, on every platform alike.
pub proof fn lemma_config_dir_fallbacks(platform: Platform, has_appdata: bool, has_home: bool, has_xdg: bool)
    requires
        !(platform == Platform::Windows && has_appdata),
        !(platform == Platform::MacOs && has_home),
    ensures
        has_xdg ==> config_dir_spec(platform, has_appdata, has_home, has_xdg) == (
            ConfigBase::XdgConfigHome,
            seq!["besynx"@],
        ),
        !has_xdg && has_home ==> config_dir_spec(platform, has_appdata, has_home, has_xdg) == (
            ConfigBase::Home,
            seq![".config"@, "besynx"@],
        ),
        !has_xdg && !has_home ==> config_dir_spec(platform, has_appdata, has_home, has_xdg) == (
            ConfigBase::CurrentDir,
            Seq::<Seq<char>>::empty(),
        ),
        forall|other: Platform|
            !(other == Platform::Windows && has_appdata) && !(other == Platform::MacOs && has_home)
                ==> #[trigger] config_dir_spec(other, has_appdata, has_home, has_xdg) == config_dir_spec(
                platform,
                has_appdata,
                has_home,
                has_xdg,
            ),
{
}

/// On Linux and other Unix systems with `HOME` set and `XDG_CONFIG_HOME`
/// unset, the directory is `HOME/.config/besynx`; on Windows the same
/// holds when `APPDATA` is unset, and on macOS `HOME` wins.
pub proof fn lemma_config_dir_home(has_appdata: bool)
    ensures
        config_dir_spec(Platform::Unix, has_appdata, true, false) == (
            ConfigBase::Home,
            seq![".config"@, "besynx"@],
        ),
        config_dir_spec(Platform::Windows, false, true, false) == (
            ConfigBase::Home,
            seq![".config"@, "besynx"@],
        ),
        config_dir_spec(Platform::MacOs, has_appdata, true, false).0 == ConfigBase::Home,
{
}

/// Windows with `APPDATA` set uses `APPDATA/Besynx`, and macOS with `HOME`
/// set uses `HOME/Library/Application Support/Besynx`, whatever else is set.
pub proof fn lemma_config_dir_platform_rules(has_appdata: bool, has_home: bool, has_xdg: bool)
    ensures
        config_dir_spec(Platform::Windows, true, has_home, has_xdg) == (
            ConfigBase::AppData,
            seq!["Besynx"@],
        ),
        config_dir_spec(Platform::MacOs, has_appdata, true, has_xdg) == (
            ConfigBase::Home,
            seq!["Library"@, "Application Support"@, "Besynx"@],
        ),
{
}

} // verus!
