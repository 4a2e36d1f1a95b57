//! What the daemon is configured to do.

use vstd::prelude::*;
use vstd::string::*;

use crate::bitwarden::BitwardenCliProvider;
use crate::file_provider::FileProvider;
use crate::pass_provider::PassProvider;
use crate::static_provider::{EntryConfig, StaticProvider};
use crate::text::{
    char_is_alphanumeric, copy_list, copy_opt, decimal_text, join2, join3, list_has, to_chars,
};

verus! {

/// The family of systems that the daemon runs on.
#[derive(Clone, Copy, Debug, PartialEq, Eq, Structural)]
pub enum Platform {
    Unix,
    Windows,
}

impl Platform {
    pub fn is_windows(self) -> (r: bool)
        ensures
            r == (self is Windows),
    {
        match self {
            Platform::Unix => false,
            Platform::Windows => true,
        }
    }
}

/// Where the password of a vault comes from on Windows.
#[derive(Clone, Copy, Debug, PartialEq, Eq, Structural)]
pub enum UnlockMode {
    Sealed,
    Askpass,
}

/// Whether the password is unsealed, and not asked for.
pub fn uses_sealed_password(platform: Platform, mode: UnlockMode) -> (r: bool)
    ensures
        r == (platform is Windows && mode is Sealed),
{
    match (platform, mode) {
        (Platform::Windows, UnlockMode::Sealed) => true,
        _ => false,
    }
}

// ---------------------------------------------------------------------------
// Paths
// ---------------------------------------------------------------------------

/// A character that separates the parts of a path.
pub open spec fn is_separator(c: char, platform: Platform) -> bool {
    c == '/' || (platform is Windows && c == '\\')
}

/// A path that is a drive and nothing else.
pub open spec fn is_drive(path: Seq<char>, platform: Platform) -> bool {
    platform is Windows && path.len() == 2 && path[1] == ':' && ('a' <= path[0] <= 'z' || 'A'
        <= path[0] <= 'Z')
}

/// A relative path inside a directory.
pub open spec fn joined(directory: Seq<char>, name: Seq<char>, platform: Platform) -> Seq<char> {
    if directory.len() == 0 || is_separator(directory.last(), platform) || is_drive(
        directory,
        platform,
    ) {
        directory + name
    } else if platform is Windows {
        directory.push('\\') + name
    } else {
        directory.push('/') + name
    }
}

/// A relative path inside a directory.
pub fn join_path(directory: &str, name: &str, platform: Platform) -> (r: String)
    ensures
        r@ == joined(directory@, name@, platform),
{
    let chars = to_chars(directory);
    let n = chars.len();
    let windows = platform.is_windows();
    let bare = n == 0 || chars[n - 1] == '/' || (windows && chars[n - 1] == '\\') || (windows && n
        == 2 && chars[1] == ':' && (('a' <= chars[0] && chars[0] <= 'z') || ('A' <= chars[0]
        && chars[0] <= 'Z')));
    let mut out = directory.to_owned();
    if !bare {
        if windows {
            out.push('\\');
        } else {
            out.push('/');
        }
    }
    out.append(name);
    out
}

/// A character as it may stand in a file name.
pub open spec fn safe_char(c: char) -> char {
    if crate::text::is_alphanumeric(c) || c == '-' || c == '_' {
        c
    } else {
        '_'
    }
}

/// A text as it may stand in a file name.
pub open spec fn safe_component(value: Seq<char>) -> Seq<char> {
    value.map_values(|c: char| safe_char(c))
}

/// Turns a text into a file name: everything but ASCII letters, digits,
/// dashes and underscores becomes an underscore.
pub fn safe_path_component(value: &str) -> (r: String)
    ensures
        r@ == safe_component(value@),
{
    let chars = to_chars(value);
    let ghost whole = safe_component(value@);
    let mut out = String::new();
    let mut i: usize = 0;
    assert(out@ =~= whole.take(0));
    while i < chars.len()
        invariant
            i <= chars@.len(),
            chars@ == value@,
            whole == safe_component(value@),
            out@ == whole.take(i as int),
        decreases chars@.len() - i,
    {
        let c = chars[i];
        if char_is_alphanumeric(c) || c == '-' || c == '_' {
            out.push(c);
        } else {
            out.push('_');
        }
        assert(whole.take(i + 1) =~= whole.take(i as int).push(whole[i as int]));
        i += 1;
    }
    assert(whole.take(i as int) =~= whole);
    out
}

/// The name of a namespace never leaves the directory that it is joined to:
/// it holds no separator and no dot.
pub proof fn law_safe_components_stay_inside(value: Seq<char>, i: int, platform: Platform)
    requires
        0 <= i < value.len(),
    ensures
        !is_separator(safe_component(value)[i], platform),
        safe_component(value)[i] != '.',
{
}

// ---------------------------------------------------------------------------
// Listeners
// ---------------------------------------------------------------------------

/// One way in.
pub enum ListenConfig {
    Unix { path: String, allowed_uids: Vec<u32>, operator_uids: Vec<u32> },
    Tcp { bind: String, port: u16 },
    Pipe { name: String, allowed_sids: Vec<String>, operator_sid: Option<String> },
}

/// One way in, by the views of its parts.
#[verifier::ext_equal]
pub enum ListenView {
    Unix { path: Seq<char>, allowed_uids: Seq<u32>, operator_uids: Seq<u32> },
    Tcp { bind: Seq<char>, port: u16 },
    Pipe { name: Seq<char>, allowed_sids: Seq<Seq<char>>, operator_sid: Option<Seq<char>> },
}

impl View for ListenConfig {
    type V = ListenView;

    open spec fn view(&self) -> ListenView {
        match *self {
            ListenConfig::Unix { path, allowed_uids, operator_uids } => ListenView::Unix {
                path: path@,
                allowed_uids: allowed_uids@,
                operator_uids: operator_uids@,
            },
            ListenConfig::Tcp { bind, port } => ListenView::Tcp { bind: bind@, port },
            ListenConfig::Pipe { name, allowed_sids, operator_sid } => ListenView::Pipe {
                name: name@,
                allowed_sids: crate::text::texts(allowed_sids@),
                operator_sid: crate::text::opt_text(operator_sid),
            },
        }
    }
}

/// Ways in, by their views.
pub open spec fn listen_views(list: Seq<ListenConfig>) -> Seq<ListenView> {
    list.map_values(|l: ListenConfig| l@)
}

/// The keys that belong to a platform.
pub struct PlatformConfig {
    pub socket_path: Option<String>,
    pub allowed_uids: Option<Vec<u32>>,
    pub service_name: String,
    pub pipe_name: String,
    pub tcp_port: u16,
    pub tcp_bind: String,
    pub allowed_sids: Vec<String>,
    pub operator_sid: Option<String>,
    pub token_hash_path: Option<String>,
    pub sealed_blob_path: Option<String>,
    pub browsers_path: Option<String>,
    pub bw_path: Option<String>,
    pub node_path: Option<String>,
}

/// The name of the service and of its pipe, where none is configured.
pub fn default_service_name() -> (r: String)
    ensures
        r@ == "tegatad"@,
{
    "tegatad".to_owned()
}

/// The port of the loopback listener, where none is configured.
pub const DEFAULT_TCP_PORT: u16 = 21575;

/// The address of the loopback listener, where none is configured.
pub fn default_tcp_bind() -> (r: String)
    ensures
        r@ == "auto"@,
{
    "auto".to_owned()
}

/// How many connections may wait for their preamble, where no number is
/// configured.
pub const DEFAULT_MAX_PENDING_CONNECTIONS: usize = 8;

/// One provider.
pub struct ProviderConfig {
    pub namespace: String,
    pub kind: ProviderConfigKind,
}

/// The kinds of providers.
pub enum ProviderConfigKind {
    Mock { entries: Vec<EntryConfig> },
    BitwardenCli {
        server_url: String,
        email: String,
        askpass_cmd: String,
        totp_exposable: Vec<String>,
        session_ttl_secs: Option<u64>,
    },
    AgeFile { entries_path: String, identity_path: String, session_ttl_secs: Option<u64> },
    Pass {
        store_dir: String,
        gnupghome: Option<String>,
        pass_bin: Option<String>,
        totp_exposable: Vec<String>,
        session_ttl_secs: Option<u64>,
    },
}

/// The configuration of the daemon.
pub struct Config {
    pub state_dir: String,
    pub audit_log_path: String,
    pub audit_log_max_bytes: Option<u64>,
    pub approve_cmd: Option<String>,
    pub approve_timeout_secs: Option<u64>,
    pub executor_entry: Option<String>,
    pub executor_socket: Option<String>,
    pub session_ttl_secs: Option<u64>,
    pub unlock_mode: UnlockMode,
    pub providers: Vec<ProviderConfig>,
    pub listen: Option<Vec<ListenConfig>>,
    pub max_pending_connections: usize,
    pub transport: PlatformConfig,
}

/// The keys of a TOML document at its top level, in the order of the parser's
/// table, or what the parser says of it.
pub uninterp spec fn toml_keys(text: Seq<char>) -> Result<Seq<Seq<char>>, Seq<char>>;

/// `toml::from_str` into a table: the keys of the document, or the message of
/// the error. Both depend on the text alone.
#[verifier::external_body]
fn document_keys(text: &str) -> (r: Result<Vec<String>, String>)
    ensures
        match r {
            Ok(keys) => toml_keys(text@) == Ok::<Seq<Seq<char>>, Seq<char>>(
                crate::text::texts(keys@),
            ),
            Err(m) => toml_keys(text@) == Err::<Seq<Seq<char>>, Seq<char>>(m@),
        },
{
    match toml::from_str::<toml::Table>(text) {
        Ok(table) => Ok(table.keys().cloned().collect()),
        Err(error) => Err(error.to_string()),
    }
}

/// The keys that the list of listeners replaces.
pub open spec fn is_legacy_key(key: Seq<char>, platform: Platform) -> bool {
    match platform {
        Platform::Unix => key == "socket_path"@ || key == "allowed_uids"@,
        Platform::Windows => key == "pipe_name"@ || key == "tcp_port"@ || key == "tcp_bind"@ || key
            == "allowed_sids"@ || key == "operator_sid"@,
    }
}

/// One of the keys of a document is among those that the list of listeners
/// replaces.
pub open spec fn has_legacy_key(keys: Seq<Seq<char>>, platform: Platform) -> bool {
    exists|i: int| 0 <= i < keys.len() && is_legacy_key(#[trigger] keys[i], platform)
}

fn legacy_key_present(keys: &Vec<String>, platform: Platform) -> (r: bool)
    ensures
        r == has_legacy_key(crate::text::texts(keys@), platform),
{
    let ghost views = crate::text::texts(keys@);
    let found = match platform {
        Platform::Unix => list_has(keys, "socket_path") || list_has(keys, "allowed_uids"),
        Platform::Windows => list_has(keys, "pipe_name") || list_has(keys, "tcp_port") || list_has(
            keys,
            "tcp_bind",
        ) || list_has(keys, "allowed_sids") || list_has(keys, "operator_sid"),
    };
    proof {
        if found {
            let key = match platform {
                Platform::Unix => if views.contains("socket_path"@) {
                    "socket_path"@
                } else {
                    "allowed_uids"@
                },
                Platform::Windows => if views.contains("pipe_name"@) {
                    "pipe_name"@
                } else if views.contains("tcp_port"@) {
                    "tcp_port"@
                } else if views.contains("tcp_bind"@) {
                    "tcp_bind"@
                } else if views.contains("allowed_sids"@) {
                    "allowed_sids"@
                } else {
                    "operator_sid"@
                },
            };
            assert(views.contains(key));
            let i = choose|i: int| 0 <= i < views.len() && views[i] == key;
            assert(is_legacy_key(views[i], platform));
        }
        if has_legacy_key(views, platform) {
            let i = choose|i: int| 0 <= i < views.len() && is_legacy_key(
                #[trigger] views[i],
                platform,
            );
            assert(views.contains(views[i]));
        }
    }
    found
}

/// The listeners that the keys of the platform stand for.
pub open spec fn platform_listeners(config: PlatformConfig, platform: Platform) -> Result<
    Seq<ListenView>,
    Seq<char>,
> {
    match platform {
        Platform::Unix => match (config.socket_path, config.allowed_uids) {
            (Some(path), Some(uids)) => Ok(
                seq![ListenView::Unix {
                    path: path@,
                    allowed_uids: uids@,
                    operator_uids: seq![],
                }],
            ),
            (None, _) => Err("socket_path is required"@),
            (Some(_), None) => Err("allowed_uids is required"@),
        },
        Platform::Windows => {
            let pipe = ListenView::Pipe {
                name: config.pipe_name@,
                allowed_sids: crate::text::texts(config.allowed_sids@),
                operator_sid: crate::text::opt_text(config.operator_sid),
            };
            if config.tcp_port == 0 {
                Ok(seq![pipe])
            } else {
                Ok(
                    seq![
                        pipe,
                        ListenView::Tcp { bind: config.tcp_bind@, port: config.tcp_port },
                    ],
                )
            }
        },
    }
}

/// The listeners of a configuration whose document has the given keys.
pub open spec fn listeners_of(keys: Seq<Seq<char>>, config: Config, platform: Platform) -> Result<
    Seq<ListenView>,
    Seq<char>,
> {
    match config.listen {
        Some(list) => if has_legacy_key(keys, platform) {
            Err("listen cannot be combined with legacy transport keys"@)
        } else if list@.len() == 0 {
            Err("listen must contain at least one listener"@)
        } else {
            Ok(listen_views(list@))
        },
        None => platform_listeners(config.transport, platform),
    }
}

fn copy_uids(uids: &Vec<u32>) -> (r: Vec<u32>)
    ensures
        r@ == uids@,
{
    let mut out: Vec<u32> = Vec::new();
    let mut i: usize = 0;
    assert(out@ =~= uids@.take(0));
    while i < uids.len()
        invariant
            i <= uids@.len(),
            out@ == uids@.take(i as int),
        decreases uids@.len() - i,
    {
        out.push(uids[i]);
        assert(uids@.take(i + 1) =~= uids@.take(i as int).push(uids@[i as int]));
        i += 1;
    }
    assert(uids@.take(i as int) =~= uids@);
    out
}

fn copy_listener(listener: &ListenConfig) -> (r: ListenConfig)
    ensures
        r@ == listener@,
{
    match listener {
        ListenConfig::Unix { path, allowed_uids, operator_uids } => ListenConfig::Unix {
            path: path.clone(),
            allowed_uids: copy_uids(allowed_uids),
            operator_uids: copy_uids(operator_uids),
        },
        ListenConfig::Tcp { bind, port } => ListenConfig::Tcp { bind: bind.clone(), port: *port },
        ListenConfig::Pipe { name, allowed_sids, operator_sid } => ListenConfig::Pipe {
            name: name.clone(),
            allowed_sids: copy_list(allowed_sids),
            operator_sid: copy_opt(operator_sid),
        },
    }
}

fn copy_listeners(list: &Vec<ListenConfig>) -> (r: Vec<ListenConfig>)
    ensures
        listen_views(r@) == listen_views(list@),
{
    let ghost all = listen_views(list@);
    let mut out: Vec<ListenConfig> = Vec::new();
    let mut i: usize = 0;
    assert(listen_views(out@) =~= all.take(0));
    while i < list.len()
        invariant
            i <= list@.len(),
            all == listen_views(list@),
            listen_views(out@) == all.take(i as int),
        decreases list@.len() - i,
    {
        let ghost before = out@;
        let copy = copy_listener(&list[i]);
        out.push(copy);
        proof {
            assert(listen_views(out@) =~= listen_views(before).push(copy@));
            assert(all.take(i + 1) =~= all.take(i as int).push(all[i as int]));
        }
        i += 1;
    }
    assert(all.take(i as int) =~= all);
    out
}

/// Picks the listeners of a configuration, given the keys of its document:
/// those of the list, or those that the keys of the platform stand for, but
/// never both.
pub fn choose_listeners(keys: &Vec<String>, config: &Config, platform: Platform) -> (r: Result<
    Vec<ListenConfig>,
    String,
>)
    ensures
        match listeners_of(crate::text::texts(keys@), *config, platform) {
            Ok(list) => r matches Ok(l) && listen_views(l@) == list,
            Err(m) => r matches Err(e) && e@ == m,
        },
{
    match &config.listen {
        Some(list) => {
            if legacy_key_present(keys, platform) {
                return Err("listen cannot be combined with legacy transport keys".to_owned());
            }
            if list.len() == 0 {
                return Err("listen must contain at least one listener".to_owned());
            }
            Ok(copy_listeners(list))
        },
        None => match platform {
            Platform::Unix => match (&config.transport.socket_path, &config.transport.allowed_uids) {
                (Some(path), Some(uids)) => {
                    let mut out: Vec<ListenConfig> = Vec::new();
                    let none: Vec<u32> = Vec::new();
                    assert(none@ =~= seq![]);
                    let listener = ListenConfig::Unix {
                        path: path.clone(),
                        allowed_uids: copy_uids(uids),
                        operator_uids: none,
                    };
                    out.push(listener);
                    assert(listen_views(out@) =~= seq![listener@]);
                    Ok(out)
                },
                (None, _) => Err("socket_path is required".to_owned()),
                (Some(_), None) => Err("allowed_uids is required".to_owned()),
            },
            Platform::Windows => {
                let mut out: Vec<ListenConfig> = Vec::new();
                let pipe = ListenConfig::Pipe {
                    name: config.transport.pipe_name.clone(),
                    allowed_sids: copy_list(&config.transport.allowed_sids),
                    operator_sid: copy_opt(&config.transport.operator_sid),
                };
                out.push(pipe);
                if config.transport.tcp_port != 0 {
                    let tcp = ListenConfig::Tcp {
                        bind: config.transport.tcp_bind.clone(),
                        port: config.transport.tcp_port,
                    };
                    out.push(tcp);
                    assert(listen_views(out@) =~= seq![pipe@, tcp@]);
                } else {
                    assert(listen_views(out@) =~= seq![pipe@]);
                }
                Ok(out)
            },
        },
    }
}

/// The listeners of a configuration.
pub fn normalize_listeners(config_text: &str, config: &Config, platform: Platform) -> (r: Result<
    Vec<ListenConfig>,
    String,
>)
    ensures
        match toml_keys(config_text@) {
            Ok(keys) => match listeners_of(keys, *config, platform) {
                Ok(list) => r matches Ok(l) && listen_views(l@) == list,
                Err(m) => r matches Err(e) && e@ == m,
            },
            Err(m) => r matches Err(e) && e@ == "could not parse config: "@ + m,
        },
{
    match document_keys(config_text) {
        Ok(keys) => choose_listeners(&keys, config, platform),
        Err(m) => Err(join2("could not parse config: ", m.as_str())),
    }
}

/// A configuration that is accepted has at least one listener.
pub proof fn law_there_is_a_listener(keys: Seq<Seq<char>>, config: Config, platform: Platform)
    ensures
        listeners_of(keys, config, platform) matches Ok(list) ==> list.len() > 0,
{
}

/// The port of the first TCP listener.
pub open spec fn first_tcp_port(list: Seq<ListenView>) -> u16
    decreases list.len(),
{
    if list.len() == 0 {
        0
    } else {
        match list[0] {
            ListenView::Tcp { port, .. } => port,
            _ => first_tcp_port(list.drop_first()),
        }
    }
}

/// The port that the firewall is opened for: that of the first TCP listener,
/// or none.
pub fn tcp_port_of(list: &Vec<ListenConfig>) -> (r: u16)
    ensures
        r == first_tcp_port(listen_views(list@)),
{
    let ghost all = listen_views(list@);
    let mut i: usize = 0;
    assert(all.skip(0) =~= all);
    while i < list.len()
        invariant
            i <= list@.len(),
            all == listen_views(list@),
            first_tcp_port(all) == first_tcp_port(all.skip(i as int)),
        decreases list@.len() - i,
    {
        proof {
            assert(all.skip(i as int)[0] == list@[i as int]@);
            assert(all.skip(i as int).drop_first() =~= all.skip(i + 1));
        }
        match &list[i] {
            ListenConfig::Tcp { port, .. } => {
                return *port;
            },
            _ => {},
        }
        i += 1;
    }
    0
}

// ---------------------------------------------------------------------------
// What a platform does not support
// ---------------------------------------------------------------------------

/// A text as the debug formatting of std shows it.
pub uninterp spec fn debug_chars(s: Seq<char>) -> Seq<char>;

/// `format!` with `{:?}` of a string: the string in quotes, with escapes. The
/// result depends on the string alone.
#[verifier::external_body]
fn debug_text(s: &str) -> (r: String)
    ensures
        r@ == debug_chars(s@),
{
    format!("{:?}", s)
}

/// An optional text as the debug formatting shows it.
pub open spec fn debug_option(s: Option<Seq<char>>) -> Seq<char> {
    match s {
        Some(t) => "Some("@ + debug_chars(t) + ")"@,
        None => "None"@,
    }
}

/// The inside of a list of texts as the debug formatting shows it.
pub open spec fn debug_items(list: Seq<Seq<char>>) -> Seq<char>
    decreases list.len(),
{
    if list.len() == 0 {
        seq![]
    } else if list.len() == 1 {
        debug_chars(list[0])
    } else {
        debug_items(list.drop_last()) + ", "@ + debug_chars(list.last())
    }
}

/// An optional number as the debug formatting shows it.
pub open spec fn debug_number(n: Option<u64>) -> Seq<char> {
    match n {
        Some(v) => "Some("@ + crate::text::decimal(v as nat) + ")"@,
        None => "None"@,
    }
}

/// What is said of a `pass` provider on Windows.
pub open spec fn pass_refusal(provider: ProviderConfig) -> Option<Seq<char>> {
    match provider.kind {
        ProviderConfigKind::Pass {
            store_dir,
            gnupghome,
            pass_bin,
            totp_exposable,
            session_ttl_secs,
        } => Some(
            "pass provider is only supported on Unix (namespace="@ + provider.namespace@
                + ", store_dir="@ + store_dir@ + ", gnupghome="@ + debug_option(
                crate::text::opt_text(gnupghome),
            ) + ", pass_bin="@ + debug_option(crate::text::opt_text(pass_bin))
                + ", totp_exposable=["@ + debug_items(crate::text::texts(totp_exposable@))
                + "], session_ttl_secs="@ + debug_number(session_ttl_secs) + ")"@,
        ),
        _ => None,
    }
}

/// What is said of the first `pass` provider.
pub open spec fn first_pass_refusal(providers: Seq<ProviderConfig>) -> Option<Seq<char>>
    decreases providers.len(),
{
    if providers.len() == 0 {
        None
    } else {
        match pass_refusal(providers[0]) {
            Some(m) => Some(m),
            None => first_pass_refusal(providers.drop_first()),
        }
    }
}

/// What is said of a configuration that the platform does not support.
pub open spec fn refusal(config: Config, platform: Platform) -> Option<Seq<char>> {
    match platform {
        Platform::Unix => None,
        Platform::Windows => if config.approve_cmd is Some {
            Some("approve_cmd is only supported on Unix"@)
        } else {
            first_pass_refusal(config.providers@)
        },
    }
}

fn option_text(s: &Option<String>) -> (r: String)
    ensures
        r@ == debug_option(crate::text::opt_text(*s)),
{
    match s {
        Some(t) => join3("Some(", debug_text(t.as_str()).as_str(), ")"),
        None => "None".to_owned(),
    }
}

fn number_text(n: Option<u64>) -> (r: String)
    ensures
        r@ == debug_number(n),
{
    match n {
        Some(v) => join3("Some(", decimal_text(v).as_str(), ")"),
        None => "None".to_owned(),
    }
}

fn items_text(list: &Vec<String>) -> (r: String)
    ensures
        r@ == debug_items(crate::text::texts(list@)),
{
    let ghost all = crate::text::texts(list@);
    let mut out = String::new();
    let mut i: usize = 0;
    assert(out@ =~= debug_items(all.take(0)));
    while i < list.len()
        invariant
            i <= list@.len(),
            all == crate::text::texts(list@),
            out@ == debug_items(all.take(i as int)),
        decreases list@.len() - i,
    {
        proof {
            assert(all.take(i + 1).drop_last() =~= all.take(i as int));
            assert(all.take(i + 1).last() == list@[i as int]@);
        }
        if i > 0 {
            out.append(", ");
        } else {
            assert(out@ =~= seq![]);
        }
        out.append(debug_text(list[i].as_str()).as_str());
        proof {
            if i == 0 {
                assert(out@ =~= debug_chars(list@[0]@));
                assert(all.take(1)[0] == list@[0]@);
            }
        }
        i += 1;
    }
    assert(all.take(i as int) =~= all);
    out
}

fn pass_refusal_text(provider: &ProviderConfig) -> (r: Option<String>)
    ensures
        crate::text::opt_text(r) == pass_refusal(*provider),
{
    match &provider.kind {
        ProviderConfigKind::Pass {
            store_dir,
            gnupghome,
            pass_bin,
            totp_exposable,
            session_ttl_secs,
        } => {
            let mut m = join3(
                "pass provider is only supported on Unix (namespace=",
                provider.namespace.as_str(),
                ", store_dir=",
            );
            m.append(store_dir.as_str());
            m.append(", gnupghome=");
            m.append(option_text(gnupghome).as_str());
            m.append(", pass_bin=");
            m.append(option_text(pass_bin).as_str());
            m.append(", totp_exposable=[");
            m.append(items_text(totp_exposable).as_str());
            m.append("], session_ttl_secs=");
            m.append(number_text(*session_ttl_secs).as_str());
            m.append(")");
            Some(m)
        },
        _ => None,
    }
}

/// Refuses a configuration that the platform does not support, rather than to
/// ignore a part of it.
pub fn check_platform(config: &Config, platform: Platform) -> (r: Result<(), String>)
    ensures
        match refusal(*config, platform) {
            Some(m) => r matches Err(e) && e@ == m,
            None => r is Ok,
        },
{
    match platform {
        Platform::Unix => Ok(()),
        Platform::Windows => {
            if config.approve_cmd.is_some() {
                return Err("approve_cmd is only supported on Unix".to_owned());
            }
            match find_pass_refusal(&config.providers) {
                Some(m) => Err(m),
                None => Ok(()),
            }
        },
    }
}

fn find_pass_refusal(providers: &Vec<ProviderConfig>) -> (r: Option<String>)
    ensures
        crate::text::opt_text(r) == first_pass_refusal(providers@),
{
    let mut i: usize = 0;
    assert(providers@.skip(0) =~= providers@);
    while i < providers.len()
        invariant
            i <= providers@.len(),
            first_pass_refusal(providers@) == first_pass_refusal(providers@.skip(i as int)),
        decreases providers@.len() - i,
    {
        assert(providers@.skip(i as int).drop_first() =~= providers@.skip(i + 1));
        match pass_refusal_text(&providers[i]) {
            Some(m) => {
                return Some(m);
            },
            None => {},
        }
        i += 1;
    }
    None
}

// ---------------------------------------------------------------------------
// Where things are
// ---------------------------------------------------------------------------

/// Where the executor is: where the configuration says, else where the
/// environment says, else beside the program.
pub open spec fn executor_entry_of(
    configured: Option<Seq<char>>,
    environment: Option<Seq<char>>,
    program: Seq<char>,
    platform: Platform,
) -> Seq<char> {
    match configured {
        Some(entry) => entry,
        None => match environment {
            Some(entry) => if entry.len() > 0 {
                entry
            } else {
                joined(program, "../../../packages/tegata-executor/dist/index.js"@, platform)
            },
            None => joined(
                program,
                "../../../packages/tegata-executor/dist/index.js"@,
                platform,
            ),
        },
    }
}

/// Where the executor is. `program` is the path of the running program, where
/// the system knows it.
pub fn resolve_executor_entry(
    configured: &Option<String>,
    environment: &Option<String>,
    program: &Option<String>,
    platform: Platform,
) -> (r: String)
    ensures
        r@ == executor_entry_of(
            crate::text::opt_text(*configured),
            crate::text::opt_text(*environment),
            match *program {
                Some(p) => p@,
                None => "tegatad"@,
            },
            platform,
        ),
{
    match configured {
        Some(entry) => {
            return entry.clone();
        },
        None => {},
    }
    match environment {
        Some(entry) => {
            if !entry.as_str().is_empty() {
                return entry.clone();
            }
        },
        None => {},
    }
    let base = match program {
        Some(p) => p.as_str(),
        None => "tegatad",
    };
    join_path(base, "../../../packages/tegata-executor/dist/index.js", platform)
}

/// A configured path on Windows, and none elsewhere.
pub open spec fn windows_path(path: Option<Seq<char>>, platform: Platform) -> Option<Seq<char>> {
    match platform {
        Platform::Windows => path,
        Platform::Unix => None,
    }
}

fn windows_only(path: &Option<String>, platform: Platform) -> (r: Option<String>)
    ensures
        crate::text::opt_text(r) == windows_path(crate::text::opt_text(*path), platform),
{
    match platform {
        Platform::Windows => copy_opt(path),
        Platform::Unix => None,
    }
}

/// The program that runs the executor.
pub fn resolve_node_path(config: &PlatformConfig, platform: Platform) -> (r: String)
    ensures
        r@ == (match windows_path(crate::text::opt_text(config.node_path), platform) {
            Some(path) => path,
            None => "node"@,
        }),
{
    match windows_only(&config.node_path, platform) {
        Some(path) => path,
        None => "node".to_owned(),
    }
}

/// The directory of the browsers, where one is configured.
pub fn resolve_browsers_path(config: &PlatformConfig, platform: Platform) -> (r: Option<String>)
    ensures
        crate::text::opt_text(r) == windows_path(
            crate::text::opt_text(config.browsers_path),
            platform,
        ),
{
    windows_only(&config.browsers_path, platform)
}

/// The Bitwarden client, where one is configured.
pub fn resolve_bw_path(config: &PlatformConfig, platform: Platform) -> (r: Option<String>)
    ensures
        crate::text::opt_text(r) == windows_path(crate::text::opt_text(config.bw_path), platform),
{
    windows_only(&config.bw_path, platform)
}

/// A configured path on Windows, else a file of the state directory.
pub open spec fn state_path(
    configured: Option<Seq<char>>,
    state_dir: Seq<char>,
    name: Seq<char>,
    platform: Platform,
) -> Seq<char> {
    match windows_path(configured, platform) {
        Some(path) => path,
        None => joined(state_dir, name, platform),
    }
}

fn state_file(configured: &Option<String>, state_dir: &str, name: &str, platform: Platform) -> (r:
    String)
    ensures
        r@ == state_path(crate::text::opt_text(*configured), state_dir@, name@, platform),
{
    match windows_only(configured, platform) {
        Some(path) => path,
        None => join_path(state_dir, name, platform),
    }
}

/// Where the digest of the old client token and the sealed password are.
pub fn resolve_state_paths(config: &Config, platform: Platform) -> (r: (String, String))
    ensures
        r.0@ == state_path(
            crate::text::opt_text(config.transport.token_hash_path),
            config.state_dir@,
            "token_hash"@,
            platform,
        ),
        r.1@ == state_path(
            crate::text::opt_text(config.transport.sealed_blob_path),
            config.state_dir@,
            "sealed.blob"@,
            platform,
        ),
{
    (
        state_file(
            &config.transport.token_hash_path,
            config.state_dir.as_str(),
            "token_hash",
            platform,
        ),
        state_file(
            &config.transport.sealed_blob_path,
            config.state_dir.as_str(),
            "sealed.blob",
            platform,
        ),
    )
}

// ---------------------------------------------------------------------------
// The state of the daemon
// ---------------------------------------------------------------------------

/// How long the sessions of a provider last, where that is configured.
pub open spec fn provider_ttl(kind: ProviderConfigKind, platform: Platform) -> Option<u64> {
    match kind {
        ProviderConfigKind::Mock { .. } => None,
        ProviderConfigKind::BitwardenCli { session_ttl_secs, .. } => session_ttl_secs,
        ProviderConfigKind::AgeFile { session_ttl_secs, .. } => session_ttl_secs,
        ProviderConfigKind::Pass { session_ttl_secs, .. } => match platform {
            Platform::Unix => session_ttl_secs,
            Platform::Windows => None,
        },
    }
}

/// How long the sessions of a provider last, where that is configured.
pub fn provider_ttl_secs(kind: &ProviderConfigKind, platform: Platform) -> (r: Option<u64>)
    ensures
        r == provider_ttl(*kind, platform),
{
    match kind {
        ProviderConfigKind::Mock { .. } => None,
        ProviderConfigKind::BitwardenCli { session_ttl_secs, .. } => *session_ttl_secs,
        ProviderConfigKind::AgeFile { session_ttl_secs, .. } => *session_ttl_secs,
        ProviderConfigKind::Pass { session_ttl_secs, .. } => match platform {
            Platform::Unix => *session_ttl_secs,
            Platform::Windows => None,
        },
    }
}

/// A vault of any kind.
pub enum Vault {
    Static(StaticProvider),
    Bitwarden(BitwardenCliProvider),
    File { vault: FileProvider, entries_path: String, identity_path: String },
    Pass(PassProvider),
}

/// A vault with its namespace.
pub struct Provider {
    pub namespace: String,
    pub vault: Vault,
}

/// How long sessions last where nothing is configured, in seconds.
pub const DEFAULT_SESSION_TTL: u64 = 300;

/// How long an approval is waited for where nothing is configured, in seconds.
pub const DEFAULT_APPROVE_TIMEOUT: u64 = 60;

pub open spec fn or_default(n: Option<u64>, default: u64) -> u64 {
    match n {
        Some(v) => v,
        None => default,
    }
}

/// A number, or a default.
pub fn number_or(n: Option<u64>, default: u64) -> (r: u64)
    ensures
        r == or_default(n, default),
{
    match n {
        Some(v) => v,
        None => default,
    }
}

/// The directory in which the Bitwarden client of a namespace keeps its state.
pub open spec fn bw_dir(
    state_dir: Seq<char>,
    namespace: Seq<char>,
    platform: Platform,
) -> Seq<char> {
    joined(state_dir, "bw-"@ + safe_component(namespace), platform)
}

/// The timer of a vault that was never open.
pub open spec fn unused_timer(ttl_secs: u64, locked: bool) -> crate::credential::VaultTimer {
    crate::credential::VaultTimer {
        ttl_secs,
        unlocked_at: None,
        locked,
        autolock_event_pending: false,
    }
}

/// A provider is built as its configuration says, in its first state.
pub open spec fn is_built(
    provider: Provider,
    config: ProviderConfig,
    state_dir: Seq<char>,
    bw_path: Option<Seq<char>>,
    session_ttl: u64,
    platform: Platform,
) -> bool {
    &&& provider.namespace@ == config.namespace@
    &&& match (config.kind, provider.vault) {
        (ProviderConfigKind::Mock { entries }, Vault::Static(vault)) => vault@ == (
        crate::static_provider::StaticView {
            entries: crate::static_provider::config_views(entries@),
            locked: false,
        }),
        (
            ProviderConfigKind::BitwardenCli {
                server_url,
                email,
                askpass_cmd,
                totp_exposable,
                session_ttl_secs,
            },
            Vault::Bitwarden(vault),
        ) => vault@ == (crate::bitwarden::BwView {
            server_url: server_url@,
            email: email@,
            askpass_cmd: askpass_cmd@,
            appdata_dir: bw_dir(state_dir, config.namespace@, platform),
            bw_path,
            totp_exposable: crate::text::texts(totp_exposable@),
            session: None,
            timer: unused_timer(or_default(session_ttl_secs, session_ttl), false),
            catalog: seq![],
            phase: crate::bitwarden::BwPhase::Idle,
            password: None,
            retried: false,
        }),
        (
            ProviderConfigKind::AgeFile { entries_path, identity_path, session_ttl_secs },
            Vault::File { vault, entries_path: entries, identity_path: identity },
        ) => {
            &&& entries@ == entries_path@
            &&& identity@ == identity_path@
            &&& vault@ == (crate::file_provider::FileView {
                timer: unused_timer(or_default(session_ttl_secs, session_ttl), true),
                session: None,
                catalog: seq![],
            })
        },
        (
            ProviderConfigKind::Pass {
                store_dir,
                gnupghome,
                pass_bin,
                totp_exposable,
                session_ttl_secs,
            },
            Vault::Pass(vault),
        ) => vault@ == (crate::pass_provider::PassView {
            store_dir: store_dir@,
            gnupghome: crate::text::opt_text(gnupghome),
            pass_bin: match pass_bin {
                Some(bin) => bin@,
                None => "pass"@,
            },
            totp_exposable: crate::text::texts(totp_exposable@),
            timer: unused_timer(or_default(session_ttl_secs, session_ttl), true),
            catalog: seq![],
            entries: seq![],
        }),
        _ => false,
    }
}

/// The values that the configuration itself holds.
pub open spec fn config_secrets(providers: Seq<ProviderConfig>) -> Seq<Seq<char>>
    decreases providers.len(),
{
    if providers.len() == 0 {
        seq![]
    } else {
        config_secrets(providers.drop_last()) + match providers.last().kind {
            ProviderConfigKind::Mock { entries } => crate::static_provider::all_secrets(
                crate::static_provider::config_views(entries@),
            ),
            _ => seq![],
        }
    }
}

/// The session lifetimes that providers have of their own.
pub open spec fn provider_ttls(providers: Seq<ProviderConfig>, platform: Platform) -> Seq<
    (Seq<char>, u64),
>
    decreases providers.len(),
{
    if providers.len() == 0 {
        seq![]
    } else {
        let rest = provider_ttls(providers.drop_last(), platform);
        match provider_ttl(providers.last().kind, platform) {
            Some(ttl) => rest.push((providers.last().namespace@, ttl)),
            None => rest,
        }
    }
}

/// Lifetimes by namespace, by their views.
pub open spec fn ttl_views(ttls: Seq<(String, u64)>) -> Seq<(Seq<char>, u64)> {
    ttls.map_values(|t: (String, u64)| (t.0@, t.1))
}

/// The lifetime of the sessions of a namespace: the last that a provider of
/// the namespace has of its own, else the one of the daemon.
pub open spec fn session_ttl_of(
    ttls: Seq<(Seq<char>, u64)>,
    namespace: Seq<char>,
    default: u64,
) -> u64
    decreases ttls.len(),
{
    if ttls.len() == 0 {
        default
    } else if ttls.last().0 == namespace {
        ttls.last().1
    } else {
        session_ttl_of(ttls.drop_last(), namespace, default)
    }
}

/// The lifetime of the sessions of a namespace, in seconds.
pub fn session_ttl(ttls: &Vec<(String, u64)>, namespace: &str, default: u64) -> (r: u64)
    ensures
        r == session_ttl_of(ttl_views(ttls@), namespace@, default),
{
    let ghost all = ttl_views(ttls@);
    let mut i: usize = ttls.len();
    assert(all.take(i as int) =~= all);
    while i > 0
        invariant
            i <= ttls@.len(),
            all == ttl_views(ttls@),
            session_ttl_of(all, namespace@, default) == session_ttl_of(
                all.take(i as int),
                namespace@,
                default,
            ),
        decreases i,
    {
        proof {
            assert(all.take(i as int).last() == all[i - 1]);
            assert(all.take(i as int).drop_last() =~= all.take(i - 1));
        }
        if crate::text::same_text(ttls[i - 1].0.as_str(), namespace) {
            return ttls[i - 1].1;
        }
        i -= 1;
    }
    default
}

/// What the daemon starts with.
pub struct StatePlan {
    pub providers: Vec<Provider>,
    pub provider_ttls: Vec<(String, u64)>,
    pub registry: Vec<String>,
    pub audit_log_path: String,
    pub audit_log_max_bytes: Option<u64>,
    pub approve_cmd: Option<String>,
    pub approve_timeout_secs: u64,
    pub executor_entry: String,
    pub executor_socket: Option<String>,
    pub node_path: String,
    pub browsers_path: Option<String>,
    pub session_ttl_secs: u64,
    pub unlock_mode: UnlockMode,
    pub sealed_blob_path: String,
}

fn build_provider(
    config: ProviderConfig,
    state_dir: &str,
    bw_path: &Option<String>,
    session_ttl: u64,
    platform: Platform,
    registry: &mut Vec<String>,
) -> (r: Provider)
    ensures
        is_built(
            r,
            config,
            state_dir@,
            crate::text::opt_text(*bw_path),
            session_ttl,
            platform,
        ),
        crate::text::texts(final(registry)@) == crate::text::texts(old(registry)@) + (
        match config.kind {
            ProviderConfigKind::Mock { entries } => crate::static_provider::all_secrets(
                crate::static_provider::config_views(entries@),
            ),
            _ => seq![],
        }),
{
    let ghost before = crate::text::texts(registry@);
    assert(before + seq![] =~= before);
    let ProviderConfig { namespace, kind } = config;
    let vault = match kind {
        ProviderConfigKind::Mock { entries } => Vault::Static(
            StaticProvider::from_config(entries, registry),
        ),
        ProviderConfigKind::BitwardenCli {
            server_url,
            email,
            askpass_cmd,
            totp_exposable,
            session_ttl_secs,
        } => {
            let component = safe_path_component(namespace.as_str());
            let directory = join2("bw-", component.as_str());
            let appdata_dir = join_path(state_dir, directory.as_str(), platform);
            Vault::Bitwarden(
                BitwardenCliProvider::new(
                    server_url,
                    email,
                    askpass_cmd,
                    appdata_dir,
                    copy_opt(bw_path),
                    totp_exposable,
                    number_or(session_ttl_secs, session_ttl),
                ),
            )
        },
        ProviderConfigKind::AgeFile { entries_path, identity_path, session_ttl_secs } =>
            Vault::File {
            vault: FileProvider::new(number_or(session_ttl_secs, session_ttl)),
            entries_path,
            identity_path,
        },
        ProviderConfigKind::Pass {
            store_dir,
            gnupghome,
            pass_bin,
            totp_exposable,
            session_ttl_secs,
        } => Vault::Pass(
            PassProvider::new(
                store_dir,
                gnupghome,
                pass_bin,
                totp_exposable,
                number_or(session_ttl_secs, session_ttl),
            ),
        ),
    };
    Provider { namespace, vault }
}

/// Builds what the daemon starts with. `environment` is the place of the
/// executor that the environment names, `program` the path of the running
/// program.
pub fn build_state(
    config: Config,
    environment: &Option<String>,
    program: &Option<String>,
    platform: Platform,
) -> (r: StatePlan)
    ensures
        r.providers@.len() == config.providers@.len(),
        forall|i: int|
            0 <= i < r.providers@.len() ==> is_built(
                #[trigger] r.providers@[i],
                config.providers@[i],
                config.state_dir@,
                windows_path(crate::text::opt_text(config.transport.bw_path), platform),
                or_default(config.session_ttl_secs, DEFAULT_SESSION_TTL),
                platform,
            ),
        ttl_views(r.provider_ttls@) == provider_ttls(config.providers@, platform),
        crate::text::texts(r.registry@) == config_secrets(config.providers@),
        r.audit_log_path@ == config.audit_log_path@,
        r.audit_log_max_bytes == config.audit_log_max_bytes,
        crate::text::opt_text(r.approve_cmd) == (match platform {
            Platform::Unix => crate::text::opt_text(config.approve_cmd),
            Platform::Windows => None,
        }),
        r.approve_timeout_secs == or_default(config.approve_timeout_secs, DEFAULT_APPROVE_TIMEOUT),
        r.executor_entry@ == executor_entry_of(
            crate::text::opt_text(config.executor_entry),
            crate::text::opt_text(*environment),
            match *program {
                Some(p) => p@,
                None => "tegatad"@,
            },
            platform,
        ),
        crate::text::opt_text(r.executor_socket) == (match platform {
            Platform::Unix => crate::text::opt_text(config.executor_socket),
            Platform::Windows => None,
        }),
        r.node_path@ == (match windows_path(
            crate::text::opt_text(config.transport.node_path),
            platform,
        ) {
            Some(path) => path,
            None => "node"@,
        }),
        crate::text::opt_text(r.browsers_path) == windows_path(
            crate::text::opt_text(config.transport.browsers_path),
            platform,
        ),
        r.session_ttl_secs == or_default(config.session_ttl_secs, DEFAULT_SESSION_TTL),
        r.unlock_mode == config.unlock_mode,
        r.sealed_blob_path@ == state_path(
            crate::text::opt_text(config.transport.sealed_blob_path),
            config.state_dir@,
            "sealed.blob"@,
            platform,
        ),
{
    let (_, sealed_blob_path) = resolve_state_paths(&config, platform);
    let executor_entry = resolve_executor_entry(
        &config.executor_entry,
        environment,
        program,
        platform,
    );
    let node_path = resolve_node_path(&config.transport, platform);
    let browsers_path = resolve_browsers_path(&config.transport, platform);
    let bw_path = resolve_bw_path(&config.transport, platform);
    let ttl: u64 = number_or(config.session_ttl_secs, DEFAULT_SESSION_TTL);
    let ghost all = config.providers@;
    let state_dir = config.state_dir;
    let mut rest = config.providers;
    let mut providers: Vec<Provider> = Vec::new();
    let mut ttls: Vec<(String, u64)> = Vec::new();
    let mut registry: Vec<String> = Vec::new();
    let ghost bw = crate::text::opt_text(bw_path);
    proof {
        assert(rest@ =~= all.skip(0));
        assert(ttl_views(ttls@) =~= provider_ttls(all.take(0), platform));
        assert(crate::text::texts(registry@) =~= config_secrets(all.take(0)));
    }
    while rest.len() > 0
        invariant
            providers@.len() <= all.len(),
            rest@ == all.skip(providers@.len() as int),
            bw == crate::text::opt_text(bw_path),
            forall|i: int|
                0 <= i < providers@.len() ==> is_built(
                    #[trigger] providers@[i],
                    all[i],
                    state_dir@,
                    bw,
                    ttl,
                    platform,
                ),
            ttl_views(ttls@) == provider_ttls(all.take(providers@.len() as int), platform),
            crate::text::texts(registry@) == config_secrets(all.take(providers@.len() as int)),
        decreases rest@.len(),
    {
        let ghost n = providers@.len() as int;
        let ghost earlier = ttls@;
        proof {
            assert(rest@[0] == all[n]);
            assert(all.take(n + 1).drop_last() =~= all.take(n));
            assert(all.take(n + 1).last() == all[n]);
        }
        let provider = rest.remove(0);
        assert(rest@ =~= all.skip(n + 1));
        match provider_ttl_secs(&provider.kind, platform) {
            Some(own) => {
                ttls.push((provider.namespace.clone(), own));
                assert(ttl_views(ttls@) =~= ttl_views(earlier).push((provider.namespace@, own)));
            },
            None => {},
        }
        let built = build_provider(
            provider,
            state_dir.as_str(),
            &bw_path,
            ttl,
            platform,
            &mut registry,
        );
        providers.push(built);
    }
    assert(all.take(providers@.len() as int) =~= all);
    let (approve_cmd, executor_socket) = match platform {
        Platform::Unix => (config.approve_cmd, config.executor_socket),
        Platform::Windows => (None, None),
    };
    StatePlan {
        providers,
        provider_ttls: ttls,
        registry,
        audit_log_path: config.audit_log_path,
        audit_log_max_bytes: config.audit_log_max_bytes,
        approve_cmd,
        approve_timeout_secs: number_or(config.approve_timeout_secs, DEFAULT_APPROVE_TIMEOUT),
        executor_entry,
        executor_socket,
        node_path,
        browsers_path,
        session_ttl_secs: ttl,
        unlock_mode: config.unlock_mode,
        sealed_blob_path,
    }
}

// ---------------------------------------------------------------------------
// The state directory
// ---------------------------------------------------------------------------

/// What is found where the state directory should be.
#[derive(Clone, Copy, Debug, PartialEq, Eq, Structural)]
pub enum StateDir {
    Missing,
    Symlink,
    Present { mode: u32, own: bool },
}

/// What is done about the state directory.
#[derive(Debug)]
pub enum StateDirPlan {
    /// Create it for the daemon alone.
    Create,
    /// Use it.
    Use,
    /// Do not start.
    Refuse(String),
}

/// On UNIX the state directory must be a directory of the daemon's own user
/// that is open to nobody else, and no way to elsewhere. One that is missing
/// is created like that. On Windows the access list of the installation
/// protects it.
pub fn check_state_dir(path: &str, found: StateDir, platform: Platform) -> (r: StateDirPlan)
    ensures
        match found {
            StateDir::Missing => r is Create,
            StateDir::Symlink => if platform is Windows {
                r is Use
            } else {
                r matches StateDirPlan::Refuse(m) && m@ == "state_dir "@ + path@
                    + " must not be a symlink"@
            },
            StateDir::Present { mode, own } => if platform is Windows {
                r is Use
            } else if mode % 0o1000 != 0o700 {
                r matches StateDirPlan::Refuse(m) && m@ == "state_dir "@ + path@
                    + " must have permissions 0700"@
            } else if !own {
                r matches StateDirPlan::Refuse(m) && m@ == "state_dir "@ + path@
                    + " must belong to the daemon's own user"@
            } else {
                r is Use
            },
        },
{
    match (found, platform) {
        (StateDir::Missing, _) => StateDirPlan::Create,
        (_, Platform::Windows) => StateDirPlan::Use,
        (StateDir::Symlink, Platform::Unix) => StateDirPlan::Refuse(
            join3("state_dir ", path, " must not be a symlink"),
        ),
        (StateDir::Present { mode, own }, Platform::Unix) => if mode % 0o1000 != 0o700 {
            StateDirPlan::Refuse(join3("state_dir ", path, " must have permissions 0700"))
        } else if !own {
            StateDirPlan::Refuse(join3("state_dir ", path, " must belong to the daemon's own user"))
        } else {
            StateDirPlan::Use
        },
    }
}

// ---------------------------------------------------------------------------
// What the configuration comes to
// ---------------------------------------------------------------------------

/// A path that is joined leads from the directory to the name, with at most
/// one separator between them.
pub proof fn law_joined_paths_hold_both(
    directory: &str,
    name: &str,
    platform: Platform,
    path: String,
)
    requires
        call_ensures(join_path, (directory, name, platform), path),
    ensures
        directory@.is_prefix_of(path@),
        path@.subrange(path@.len() - name@.len(), path@.len() as int) == name@,
        path@.len() <= directory@.len() + 1 + name@.len(),
        directory@.len() > 0 && platform is Unix && directory@.last() != '/' ==> path@
            == directory@ + seq!['/'] + name@,
        directory@.len() > 0 && directory@.last() == '/' ==> path@ == directory@ + name@,
{
    let skip = path@.len() - name@.len();
    assert(path@.subrange(skip, path@.len() as int) =~= name@);
    assert(path@.subrange(0, directory@.len() as int) =~= directory@);
    if directory@.len() > 0 && platform is Unix && directory@.last() != '/' {
        assert(path@ =~= directory@ + seq!['/'] + name@);
    }
}

/// In a file name, letters, digits, dashes and underscores stay, and every
/// other character becomes an underscore.
pub proof fn law_file_names_keep_letters(value: &str, name: String, i: int)
    requires
        call_ensures(safe_path_component, (value,), name),
    ensures
        name@.len() == value@.len(),
        0 <= i < value@.len() ==> {
            let c = value@[i];
            let kept = 'a' <= c <= 'z' || 'A' <= c <= 'Z' || '0' <= c <= '9' || c == '-' || c == '_';
            name@[i] == if kept {
                c
            } else {
                '_'
            }
        },
{
}

/// The listed listeners are taken over as they are, in their order. They are
/// refused beside one of the keys that they replace, and where there is none.
pub proof fn law_listed_listeners_are_taken_over(
    keys: &Vec<String>,
    config: &Config,
    platform: Platform,
    chosen: Result<Vec<ListenConfig>, String>,
    i: int,
)
    requires
        call_ensures(choose_listeners, (keys, config, platform), chosen),
        config.listen is Some,
    ensures
        config.listen->0@.len() == 0 ==> chosen is Err,
        0 <= i < keys@.len() && platform is Unix && (keys@[i]@ == "socket_path"@ || keys@[i]@
            == "allowed_uids"@) ==> chosen is Err,
        0 <= i < keys@.len() && platform is Windows && (keys@[i]@ == "pipe_name"@ || keys@[i]@
            == "tcp_port"@ || keys@[i]@ == "tcp_bind"@ || keys@[i]@ == "allowed_sids"@
            || keys@[i]@ == "operator_sid"@) ==> chosen is Err,
        config.listen->0@.len() > 0 && keys@.len() == 0 ==> chosen is Ok,
        chosen matches Ok(list) ==> {
            &&& list@.len() == config.listen->0@.len()
            &&& 0 <= i < list@.len() ==> match config.listen->0@[i] {
                ListenConfig::Unix { path, allowed_uids, operator_uids } => {
                    &&& list@[i] is Unix
                    &&& list@[i]->path@ == path@
                    &&& list@[i]->allowed_uids@ == allowed_uids@
                    &&& list@[i]->operator_uids@ == operator_uids@
                },
                ListenConfig::Tcp { bind, port } => {
                    &&& list@[i] is Tcp
                    &&& list@[i]->bind@ == bind@
                    &&& list@[i]->port == port
                },
                ListenConfig::Pipe { name, allowed_sids, operator_sid } => {
                    &&& list@[i] is Pipe
                    &&& list@[i]->name@ == name@
                    &&& crate::text::texts(list@[i]->allowed_sids@) == crate::text::texts(
                        allowed_sids@,
                    )
                    &&& crate::text::opt_text(list@[i]->operator_sid) == crate::text::opt_text(
                        operator_sid,
                    )
                },
            }
        },
{
    let texts = crate::text::texts(keys@);
    if 0 <= i < keys@.len() {
        assert(texts[i] == keys@[i]@);
        if is_legacy_key(texts[i], platform) {
            assert(has_legacy_key(texts, platform));
        }
    }
    if chosen is Ok {
        let list = chosen->Ok_0;
        let listed = config.listen->0@;
        assert(listen_views(list@) == listen_views(listed));
        assert(listen_views(list@).len() == list@.len());
        assert(listen_views(listed).len() == listed.len());
        if 0 <= i < list@.len() {
            assert(listen_views(list@)[i] == list@[i]@);
            assert(listen_views(listed)[i] == listed[i]@);
        }
    }
}

/// Without a list, the keys of the platform give the listeners: the socket with
/// its users on UNIX, where both must be given; the pipe with its accounts on
/// Windows, and the loopback listener unless its port is zero.
pub proof fn law_platform_keys_give_listeners(
    keys: &Vec<String>,
    config: &Config,
    platform: Platform,
    chosen: Result<Vec<ListenConfig>, String>,
)
    requires
        call_ensures(choose_listeners, (keys, config, platform), chosen),
        config.listen is None,
    ensures
        platform is Unix ==> {
            &&& (chosen is Ok <==> config.transport.socket_path is Some
                && config.transport.allowed_uids is Some)
            &&& chosen matches Ok(list) ==> {
                &&& list@.len() == 1
                &&& list@[0] is Unix
                &&& list@[0]->path@ == config.transport.socket_path->0@
                &&& list@[0]->allowed_uids@ == config.transport.allowed_uids->0@
                &&& list@[0]->operator_uids@.len() == 0
            }
        },
        platform is Windows ==> {
            &&& chosen is Ok
            &&& chosen->Ok_0@.len() == if config.transport.tcp_port == 0 {
                1int
            } else {
                2
            }
            &&& chosen->Ok_0@[0] is Pipe
            &&& chosen->Ok_0@[0]->name@ == config.transport.pipe_name@
            &&& crate::text::texts(chosen->Ok_0@[0]->allowed_sids@) == crate::text::texts(
                config.transport.allowed_sids@,
            )
            &&& crate::text::opt_text(chosen->Ok_0@[0]->operator_sid) == crate::text::opt_text(
                config.transport.operator_sid,
            )
            &&& config.transport.tcp_port != 0 ==> {
                &&& chosen->Ok_0@[1] is Tcp
                &&& chosen->Ok_0@[1]->bind@ == config.transport.tcp_bind@
                &&& chosen->Ok_0@[1]->port == config.transport.tcp_port
            }
        },
{
    if chosen is Ok {
        let list = chosen->Ok_0@;
        assert(listen_views(list).len() == list.len());
        if list.len() > 0 {
            assert(listen_views(list)[0] == list[0]@);
        }
        if list.len() > 1 {
            assert(listen_views(list)[1] == list[1]@);
        }
    }
}

/// The firewall is opened for the port of the first loopback listener.
pub proof fn law_the_first_port_is_opened(list: &Vec<ListenConfig>, port: u16, i: int)
    requires
        call_ensures(tcp_port_of, (list,), port),
    ensures
        (0 <= i < list@.len() && list@[i] is Tcp && (forall|k: int|
            0 <= k < i ==> !((#[trigger] list@[k]) is Tcp))) ==> port == list@[i]->port,
        (forall|k: int| 0 <= k < list@.len() ==> !((#[trigger] list@[k]) is Tcp)) ==> port == 0,
{
    lemma_first_port(list@, i);
}

proof fn lemma_first_port(list: Seq<ListenConfig>, i: int)
    ensures
        (0 <= i < list.len() && list[i] is Tcp && (forall|k: int|
            0 <= k < i ==> !((#[trigger] list[k]) is Tcp))) ==> first_tcp_port(listen_views(list))
            == list[i]->port,
        (forall|k: int| 0 <= k < list.len() ==> !((#[trigger] list[k]) is Tcp)) ==> first_tcp_port(
            listen_views(list),
        ) == 0,
    decreases list.len(),
{
    let views = listen_views(list);
    assert(views.len() == list.len());
    if list.len() > 0 {
        assert(views[0] == list[0]@);
        if !(list[0] is Tcp) {
            let rest = list.drop_first();
            assert(views.drop_first() =~= listen_views(rest));
            lemma_first_port(rest, i - 1);
            if i < list.len() && (forall|k: int| 0 <= k < i ==> !((#[trigger] list[k]) is Tcp)) {
                assert forall|k: int| 0 <= k < i - 1 implies !((#[trigger] rest[k]) is Tcp) by {
                    assert(rest[k] == list[k + 1]);
                }
            }
            if forall|k: int| 0 <= k < list.len() ==> !((#[trigger] list[k]) is Tcp) {
                assert forall|k: int| 0 <= k < rest.len() implies !((#[trigger] rest[k]) is Tcp) by {
                    assert(rest[k] == list[k + 1]);
                }
            }
        }
    }
}

/// On UNIX every configuration is supported. On Windows one is refused exactly
/// where it has an approval command or a `pass` provider.
pub proof fn law_unsupported_parts_are_refused(
    config: &Config,
    platform: Platform,
    checked: Result<(), String>,
    i: int,
)
    requires
        call_ensures(check_platform, (config, platform), checked),
    ensures
        platform is Unix ==> checked is Ok,
        platform is Windows && config.approve_cmd is Some ==> (checked matches Err(m) && m@
            == "approve_cmd is only supported on Unix"@),
        platform is Windows && 0 <= i < config.providers@.len() && config.providers@[i].kind is Pass
            ==> checked is Err,
        config.approve_cmd is None && (forall|k: int|
            0 <= k < config.providers@.len() ==> !((#[trigger] config.providers@[k]).kind is Pass))
            ==> checked is Ok,
{
    lemma_refused(config.providers@, i);
}

proof fn lemma_refused(providers: Seq<ProviderConfig>, i: int)
    ensures
        0 <= i < providers.len() && providers[i].kind is Pass ==> first_pass_refusal(
            providers,
        ) is Some,
        (forall|k: int| 0 <= k < providers.len() ==> !((#[trigger] providers[k]).kind is Pass))
            ==> first_pass_refusal(providers) is None,
    decreases providers.len(),
{
    if providers.len() > 0 {
        let rest = providers.drop_first();
        lemma_refused(rest, i - 1);
        if i > 0 && i < providers.len() {
            assert(rest[i - 1] == providers[i]);
        }
        if forall|k: int| 0 <= k < providers.len() ==> !((#[trigger] providers[k]).kind is Pass) {
            assert(!(providers[0].kind is Pass));
            assert forall|k: int| 0 <= k < rest.len() implies !((#[trigger] rest[k]).kind is Pass) by {
                assert(rest[k] == providers[k + 1]);
            }
        }
    }
}

/// A configured executor is taken; without one, that of the environment, unless
/// it is empty; without that, the one beside the program.
pub proof fn law_executors_are_found(
    configured: &Option<String>,
    environment: &Option<String>,
    program: &Option<String>,
    platform: Platform,
    entry: String,
    directory: &str,
    beside: String,
    name: &str,
)
    requires
        call_ensures(resolve_executor_entry, (configured, environment, program, platform), entry),
        call_ensures(join_path, (directory, name, platform), beside),
        name@ == "../../../packages/tegata-executor/dist/index.js"@,
        directory@ == match *program {
            Some(p) => p@,
            None => "tegatad"@,
        },
    ensures
        *configured matches Some(c) ==> entry@ == c@,
        *configured is None ==> (*environment matches Some(e) ==> e@.len() > 0 ==> entry@ == e@),
        *configured is None && (*environment is None || environment->0@.len() == 0) ==> entry@
            == beside@,
{
}

/// A session lasts as long as the last provider of its namespace says, and else
/// as long as the daemon's sessions do.
pub proof fn law_the_last_lifetime_counts(
    ttls: &Vec<(String, u64)>,
    namespace: &str,
    default: u64,
    lifetime: u64,
    i: int,
)
    requires
        call_ensures(session_ttl, (ttls, namespace, default), lifetime),
    ensures
        (0 <= i < ttls@.len() && ttls@[i].0@ == namespace@ && (forall|k: int|
            i < k < ttls@.len() ==> (#[trigger] ttls@[k]).0@ != namespace@)) ==> lifetime
            == ttls@[i].1,
        (forall|k: int| 0 <= k < ttls@.len() ==> (#[trigger] ttls@[k]).0@ != namespace@)
            ==> lifetime == default,
{
    lemma_last_lifetime(ttls@, namespace@, default, i);
}

proof fn lemma_last_lifetime(ttls: Seq<(String, u64)>, namespace: Seq<char>, default: u64, i: int)
    ensures
        (0 <= i < ttls.len() && ttls[i].0@ == namespace && (forall|k: int|
            i < k < ttls.len() ==> (#[trigger] ttls[k]).0@ != namespace)) ==> session_ttl_of(
            ttl_views(ttls),
            namespace,
            default,
        ) == ttls[i].1,
        (forall|k: int| 0 <= k < ttls.len() ==> (#[trigger] ttls[k]).0@ != namespace)
            ==> session_ttl_of(ttl_views(ttls), namespace, default) == default,
    decreases ttls.len(),
{
    let views = ttl_views(ttls);
    assert(views.len() == ttls.len());
    if ttls.len() > 0 {
        let last = ttls.len() - 1;
        assert(views[last] == (ttls[last].0@, ttls[last].1));
        let rest = ttls.drop_last();
        assert(views.drop_last() =~= ttl_views(rest));
        lemma_last_lifetime(rest, namespace, default, i);
        assert forall|k: int| 0 <= k < rest.len() implies #[trigger] rest[k] == ttls[k] by {}
        if forall|k: int| i < k < ttls.len() ==> (#[trigger] ttls[k]).0@ != namespace {
            assert forall|k: int| i < k < rest.len() && 0 <= k implies (#[trigger] rest[k]).0@
                != namespace by {
                assert(rest[k] == ttls[k]);
            }
        }
        if forall|k: int| 0 <= k < ttls.len() ==> (#[trigger] ttls[k]).0@ != namespace {
            assert forall|k: int| 0 <= k < rest.len() implies (#[trigger] rest[k]).0@
                != namespace by {
                assert(rest[k] == ttls[k]);
            }
        }
    }
}

/// The daemon starts with one locked vault for each configured provider, under
/// its namespace and with its own settings.
pub proof fn law_providers_are_built_as_configured(
    config: Config,
    environment: &Option<String>,
    program: &Option<String>,
    platform: Platform,
    plan: StatePlan,
    i: int,
)
    requires
        call_ensures(build_state, (config, environment, program, platform), plan),
        0 <= i < config.providers@.len(),
    ensures
        plan.providers@.len() == config.providers@.len(),
        plan.providers@[i].namespace@ == config.providers@[i].namespace@,
        config.providers@[i].kind matches ProviderConfigKind::BitwardenCli {
            server_url,
            email,
            askpass_cmd,
            session_ttl_secs,
            ..
        } ==> (plan.providers@[i].vault matches Vault::Bitwarden(vault) && {
            &&& vault@.server_url == server_url@
            &&& vault@.email == email@
            &&& vault@.askpass_cmd == askpass_cmd@
            &&& vault@.session is None
            &&& session_ttl_secs matches Some(secs) ==> vault@.timer.ttl_secs == secs
            &&& session_ttl_secs is None && config.session_ttl_secs is Some
                ==> vault@.timer.ttl_secs == config.session_ttl_secs->0
            &&& session_ttl_secs is None && config.session_ttl_secs is None
                ==> vault@.timer.ttl_secs == 300
            &&& platform is Unix ==> vault@.bw_path is None
            &&& platform is Windows && config.transport.bw_path is Some ==> vault@.bw_path == Some(
                config.transport.bw_path->0@,
            )
        }),
        config.providers@[i].kind matches ProviderConfigKind::AgeFile {
            entries_path,
            identity_path,
            session_ttl_secs,
        } ==> (plan.providers@[i].vault matches Vault::File {
            vault,
            entries_path: entries,
            identity_path: identity,
        } && {
            &&& entries@ == entries_path@
            &&& identity@ == identity_path@
            &&& vault@.session is None
            &&& vault@.timer.locked
            &&& session_ttl_secs matches Some(secs) ==> vault@.timer.ttl_secs == secs
        }),
        config.providers@[i].kind matches ProviderConfigKind::Pass {
            store_dir,
            gnupghome,
            pass_bin,
            session_ttl_secs,
            ..
        } ==> (plan.providers@[i].vault matches Vault::Pass(vault) && {
            &&& vault@.store_dir == store_dir@
            &&& gnupghome matches Some(home) ==> vault@.gnupghome == Some(home@)
            &&& gnupghome is None ==> vault@.gnupghome is None
            &&& pass_bin matches Some(bin) ==> vault@.pass_bin == bin@
            &&& pass_bin is None ==> vault@.pass_bin == "pass"@
            &&& vault@.timer.locked
            &&& session_ttl_secs matches Some(secs) ==> vault@.timer.ttl_secs == secs
        }),
        config.providers@[i].kind is Mock ==> plan.providers@[i].vault is Static,
{
    let built = plan.providers@[i];
    assert(is_built(
        built,
        config.providers@[i],
        config.state_dir@,
        windows_path(crate::text::opt_text(config.transport.bw_path), platform),
        or_default(config.session_ttl_secs, DEFAULT_SESSION_TTL),
        platform,
    ));
}

/// Every value that the configuration itself holds is registered before the
/// daemon answers anybody.
pub proof fn law_configured_values_are_known_at_the_start(
    config: Config,
    environment: &Option<String>,
    program: &Option<String>,
    platform: Platform,
    plan: StatePlan,
    i: int,
    j: int,
)
    requires
        call_ensures(build_state, (config, environment, program, platform), plan),
        0 <= i < config.providers@.len(),
    ensures
        config.providers@[i].kind matches ProviderConfigKind::Mock { entries } ==> (0 <= j
            < entries@.len() ==> {
            &&& crate::text::texts(plan.registry@).contains(entries@[j].username@)
            &&& crate::text::texts(plan.registry@).contains(entries@[j].password@)
            &&& entries@[j].totp_seed matches Some(seed) ==> crate::text::texts(
                plan.registry@,
            ).contains(seed@)
        }),
{
    match config.providers@[i].kind {
        ProviderConfigKind::Mock { entries } => {
            if 0 <= j < entries@.len() {
                let views = crate::static_provider::config_views(entries@);
                assert(views[j] == entries@[j]@);
                crate::static_provider::lemma_all_secrets(views, j);
                lemma_config_secrets(config.providers@, i);
            }
        },
        _ => {},
    }
}

proof fn lemma_config_secrets(providers: Seq<ProviderConfig>, i: int)
    requires
        0 <= i < providers.len(),
        providers[i].kind is Mock,
    ensures
        forall|s: Seq<char>|
            crate::static_provider::all_secrets(
                crate::static_provider::config_views(providers[i].kind->entries@),
            ).contains(s) ==> #[trigger] config_secrets(providers).contains(s),
    decreases providers.len(),
{
    let own = crate::static_provider::all_secrets(
        crate::static_provider::config_views(providers[i].kind->entries@),
    );
    let before = config_secrets(providers.drop_last());
    let all = config_secrets(providers);
    if i < providers.len() - 1 {
        assert(providers.drop_last()[i] == providers[i]);
        lemma_config_secrets(providers.drop_last(), i);
        assert forall|s: Seq<char>| own.contains(s) implies #[trigger] all.contains(s) by {
            assert(before.contains(s));
            let k = choose|k: int| 0 <= k < before.len() && before[k] == s;
            assert(all[k] == s);
        }
    } else {
        assert forall|s: Seq<char>| own.contains(s) implies #[trigger] all.contains(s) by {
            let k = choose|k: int| 0 <= k < own.len() && own[k] == s;
            assert(all[before.len() + k] == s);
        }
    }
}

/// The settings of the daemon are those of the configuration, or their
/// defaults; the approval command, the socket of the executor and the paths of
/// the other system count on their own platform only.
pub proof fn law_settings_are_those_configured(
    config: Config,
    environment: &Option<String>,
    program: &Option<String>,
    platform: Platform,
    plan: StatePlan,
)
    requires
        call_ensures(build_state, (config, environment, program, platform), plan),
    ensures
        plan.audit_log_path@ == config.audit_log_path@,
        plan.audit_log_max_bytes == config.audit_log_max_bytes,
        plan.unlock_mode == config.unlock_mode,
        config.session_ttl_secs matches Some(secs) ==> plan.session_ttl_secs == secs,
        config.session_ttl_secs is None ==> plan.session_ttl_secs == 300,
        config.approve_timeout_secs matches Some(secs) ==> plan.approve_timeout_secs == secs,
        config.approve_timeout_secs is None ==> plan.approve_timeout_secs == 60,
        platform is Unix ==> {
            &&& (plan.approve_cmd is Some <==> config.approve_cmd is Some)
            &&& config.approve_cmd matches Some(cmd) ==> plan.approve_cmd->0@ == cmd@
            &&& (plan.executor_socket is Some <==> config.executor_socket is Some)
            &&& config.executor_socket matches Some(path) ==> plan.executor_socket->0@ == path@
            &&& plan.node_path@ == "node"@
            &&& plan.browsers_path is None
        },
        platform is Windows ==> {
            &&& plan.approve_cmd is None
            &&& plan.executor_socket is None
            &&& config.transport.node_path matches Some(path) ==> plan.node_path@ == path@
            &&& config.transport.node_path is None ==> plan.node_path@ == "node"@
            &&& (plan.browsers_path is Some <==> config.transport.browsers_path is Some)
            &&& config.transport.browsers_path matches Some(path) ==> plan.browsers_path->0@
                == path@
            &&& config.transport.sealed_blob_path matches Some(path) ==> plan.sealed_blob_path@
                == path@
        },
        config.executor_entry matches Some(entry) ==> plan.executor_entry@ == entry@,
{
}

/// The state directory is used on UNIX where it is the daemon's own and closed
/// to everybody else, and created where it is missing.
pub proof fn law_state_directories_are_private(
    path: &str,
    found: StateDir,
    platform: Platform,
    plan: StateDirPlan,
)
    requires
        call_ensures(check_state_dir, (path, found, platform), plan),
    ensures
        plan is Create <==> found is Missing,
        platform is Windows ==> !(plan is Refuse),
        platform is Unix && plan is Use ==> (found matches StateDir::Present { mode, own } && own
            && mode % 512 == 448),
        platform is Unix ==> (found matches StateDir::Present { mode, own } ==> (own && mode % 512
            == 448) ==> plan is Use),
{
}

/// On Windows a backslash stands between a directory and a name, except behind
/// a separator and behind a drive.
pub proof fn law_windows_paths_are_joined(directory: &str, name: &str, path: String)
    requires
        call_ensures(join_path, (directory, name, Platform::Windows), path),
        directory@.len() > 2,
    ensures
        directory@.last() != '\\' && directory@.last() != '/' ==> path@ == directory@ + seq!['\\']
            + name@,
        directory@.last() == '\\' ==> path@ == directory@ + name@,
{
    if directory@.last() != '\\' && directory@.last() != '/' {
        assert(path@ =~= directory@ + seq!['\\'] + name@);
    }
}

/// A name behind a drive stays relative to it.
pub proof fn law_drives_are_joined_without_separator(drive: &str, name: &str, path: String)
    requires
        call_ensures(join_path, (drive, name, Platform::Windows), path),
        drive@.len() == 2,
        drive@[1] == ':',
    ensures
        'a' <= drive@[0] <= 'z' || 'A' <= drive@[0] <= 'Z' ==> path@ == drive@ + name@,
        !('a' <= drive@[0] <= 'z' || 'A' <= drive@[0] <= 'Z') ==> path@ == drive@ + seq!['\\']
            + name@,
{
    if !('a' <= drive@[0] <= 'z' || 'A' <= drive@[0] <= 'Z') {
        assert(path@ =~= drive@ + seq!['\\'] + name@);
    }
}

proof fn lemma_ttl_of(
    providers: Seq<ProviderConfig>,
    platform: Platform,
    namespace: Seq<char>,
    default: u64,
    i: int,
)
    requires
        0 <= i < providers.len(),
        providers[i].namespace@ == namespace,
        provider_ttl(providers[i].kind, platform) is Some,
        forall|k: int|
            i < k < providers.len() ==> (#[trigger] providers[k]).namespace@ != namespace,
    ensures
        session_ttl_of(provider_ttls(providers, platform), namespace, default) == provider_ttl(
            providers[i].kind,
            platform,
        )->0,
    decreases providers.len(),
{
    let rest = providers.drop_last();
    let before = provider_ttls(rest, platform);
    let last = providers.last();
    if i < rest.len() {
        assert(rest[i] == providers[i]);
        assert forall|k: int| i < k < rest.len() implies (#[trigger] rest[k]).namespace@
            != namespace by {
            assert(rest[k] == providers[k]);
        }
        lemma_ttl_of(rest, platform, namespace, default, i);
        assert(providers[providers.len() - 1].namespace@ != namespace);
        match provider_ttl(last.kind, platform) {
            Some(ttl) => {
                let all = before.push((last.namespace@, ttl));
                assert(all.drop_last() =~= before);
                assert(all.last() == (last.namespace@, ttl));
            },
            None => {},
        }
    } else {
        let ttl = provider_ttl(last.kind, platform)->0;
        assert(before.push((last.namespace@, ttl)).last() == (last.namespace@, ttl));
    }
}

/// The sessions of a namespace last as long as its provider says.
pub proof fn law_sessions_last_as_their_provider_says(
    config: Config,
    environment: &Option<String>,
    program: &Option<String>,
    plan: StatePlan,
    namespace: &str,
    lifetime: u64,
    i: int,
)
    requires
        call_ensures(build_state, (config, environment, program, Platform::Unix), plan),
        0 <= i < config.providers@.len(),
        namespace@ == config.providers@[i].namespace@,
        forall|k: int|
            i < k < config.providers@.len() ==> (#[trigger] config.providers@[k]).namespace@
                != namespace@,
        call_ensures(
            session_ttl,
            (&plan.provider_ttls, namespace, plan.session_ttl_secs),
            lifetime,
        ),
    ensures
        config.providers@[i].kind matches ProviderConfigKind::BitwardenCli { session_ttl_secs, .. }
            ==> (session_ttl_secs matches Some(secs) ==> lifetime == secs),
        config.providers@[i].kind matches ProviderConfigKind::AgeFile { session_ttl_secs, .. }
            ==> (session_ttl_secs matches Some(secs) ==> lifetime == secs),
        config.providers@[i].kind matches ProviderConfigKind::Pass { session_ttl_secs, .. }
            ==> (session_ttl_secs matches Some(secs) ==> lifetime == secs),
{
    if provider_ttl(config.providers@[i].kind, Platform::Unix) is Some {
        lemma_ttl_of(
            config.providers@,
            Platform::Unix,
            namespace@,
            plan.session_ttl_secs,
            i,
        );
    }
}

} // verus!
