//! The settings of the program: where they come from and what they may be.
use crate::text::{
    ascii_lower, begins_with, blank, cat2, cat3, cat4, is_blank, join, joined, lower_ascii, outcome,
    same, split_char, split_on, starts_with, texts, trim, trimmed,
};
use vstd::prelude::*;
use vstd::utf8::encode_utf8;

verus! {

// ---------------------------------------------------------------------------------------------
// Permission modes
// ---------------------------------------------------------------------------------------------

/// How freely tools may run.
#[derive(Debug, Clone, Copy, PartialEq, Eq, Structural)]
pub enum PermissionMode {
    Default,
    AcceptEdits,
    Plan,
    Auto,
    /// An interactive session enters this mode only by a flag on the command line.
    Yolo,
}

impl Default for PermissionMode {
    fn default() -> (r: Self)
        ensures
            r == PermissionMode::Default,
    {
        PermissionMode::Default
    }
}

/// The name of a mode in settings.
pub open spec fn mode_name(mode: PermissionMode) -> Seq<char> {
    match mode {
        PermissionMode::Default => "default"@,
        PermissionMode::AcceptEdits => "accept-edits"@,
        PermissionMode::Plan => "plan"@,
        PermissionMode::Auto => "auto"@,
        PermissionMode::Yolo => "yolo"@,
    }
}

/// The mode that a name in settings stands for; `manual` is another name of the default mode.
pub open spec fn mode_named(name: Seq<char>) -> Option<PermissionMode> {
    if name == "default"@ || name == "manual"@ {
        Some(PermissionMode::Default)
    } else if name == "accept-edits"@ {
        Some(PermissionMode::AcceptEdits)
    } else if name == "plan"@ {
        Some(PermissionMode::Plan)
    } else if name == "auto"@ {
        Some(PermissionMode::Auto)
    } else if name == "yolo"@ {
        Some(PermissionMode::Yolo)
    } else {
        None
    }
}

/// The mode that follows in an interactive session.
pub open spec fn next_mode(mode: PermissionMode) -> PermissionMode {
    match mode {
        PermissionMode::Yolo => PermissionMode::Default,
        PermissionMode::Default => PermissionMode::AcceptEdits,
        PermissionMode::AcceptEdits => PermissionMode::Plan,
        PermissionMode::Plan => PermissionMode::Auto,
        PermissionMode::Auto => PermissionMode::Default,
    }
}

/// The name under which a mode is kept as a default: skipping permissions is never kept.
pub open spec fn default_mode_name(mode: PermissionMode) -> Seq<char> {
    if mode == PermissionMode::Yolo {
        "default"@
    } else {
        mode_name(mode)
    }
}

impl PermissionMode {
    /// The mode as it is shown.
    pub fn label(self) -> (r: &'static str)
        ensures
            r@ == match self {
                PermissionMode::Default => "Manual"@,
                PermissionMode::AcceptEdits => "Accept edits"@,
                PermissionMode::Plan => "Plan"@,
                PermissionMode::Auto => "Auto"@,
                PermissionMode::Yolo => "Bypass permissions"@,
            },
    {
        match self {
            PermissionMode::Default => "Manual",
            PermissionMode::AcceptEdits => "Accept edits",
            PermissionMode::Plan => "Plan",
            PermissionMode::Auto => "Auto",
            PermissionMode::Yolo => "Bypass permissions",
        }
    }

    /// What the mode does.
    pub fn description(self) -> (r: &'static str)
        ensures
            r@ == match self {
                PermissionMode::Default => "ask before edits and commands"@,
                PermissionMode::AcceptEdits => "apply workspace edits; ask before commands"@,
                PermissionMode::Plan => "read and explore without changing files"@,
                PermissionMode::Auto => "run tools automatically within safety rules"@,
                PermissionMode::Yolo => "skip permission checks"@,
            },
    {
        match self {
            PermissionMode::Default => "ask before edits and commands",
            PermissionMode::AcceptEdits => "apply workspace edits; ask before commands",
            PermissionMode::Plan => "read and explore without changing files",
            PermissionMode::Auto => "run tools automatically within safety rules",
            PermissionMode::Yolo => "skip permission checks",
        }
    }

    /// The mode that follows in an interactive session.
    pub fn next_interactive(self) -> (r: Self)
        ensures
            r == next_mode(self),
    {
        match self {
            PermissionMode::Yolo => PermissionMode::Default,
            PermissionMode::Default => PermissionMode::AcceptEdits,
            PermissionMode::AcceptEdits => PermissionMode::Plan,
            PermissionMode::Plan => PermissionMode::Auto,
            PermissionMode::Auto => PermissionMode::Default,
        }
    }

    /// The name of the mode in settings.
    pub fn name(self) -> (r: &'static str)
        ensures
            r@ == mode_name(self),
    {
        match self {
            PermissionMode::Default => "default",
            PermissionMode::AcceptEdits => "accept-edits",
            PermissionMode::Plan => "plan",
            PermissionMode::Auto => "auto",
            PermissionMode::Yolo => "yolo",
        }
    }

    /// The mode that a name in settings stands for.
    pub fn from_name(name: &str) -> (r: Option<Self>)
        ensures
            r == mode_named(name@),
    {
        if same(name, "default") || same(name, "manual") {
            Some(PermissionMode::Default)
        } else if same(name, "accept-edits") {
            Some(PermissionMode::AcceptEdits)
        } else if same(name, "plan") {
            Some(PermissionMode::Plan)
        } else if same(name, "auto") {
            Some(PermissionMode::Auto)
        } else if same(name, "yolo") {
            Some(PermissionMode::Yolo)
        } else {
            None
        }
    }

    /// The name under which the mode is kept as a default: skipping permissions is never kept.
    pub fn default_name(self) -> (r: &'static str)
        ensures
            r@ == default_mode_name(self),
    {
        match self {
            PermissionMode::Yolo => "default",
            _ => self.name(),
        }
    }
}

/// Four steps lead through all modes of an interactive session and back, and none of them skips
/// permissions.
pub proof fn interactive_modes_form_a_cycle(mode: PermissionMode)
    ensures
        next_mode(mode) != PermissionMode::Yolo,
        mode != PermissionMode::Yolo ==> next_mode(next_mode(next_mode(next_mode(mode)))) == mode,
        mode != PermissionMode::Yolo ==> next_mode(mode) != mode && next_mode(next_mode(mode)) != mode
            && next_mode(next_mode(next_mode(mode))) != mode,
{
}

/// The name of a mode stands for that mode.
pub proof fn mode_names_are_read_back(mode: PermissionMode)
    ensures
        mode_named(mode_name(mode)) == Some(mode),
{
    reveal_strlit("default");
    reveal_strlit("manual");
    reveal_strlit("accept-edits");
    reveal_strlit("plan");
    reveal_strlit("auto");
    reveal_strlit("yolo");
    assert("plan"@[0] == 'p');
    assert("auto"@[0] == 'a');
    assert("yolo"@[0] == 'y');
    assert("default"@[0] == 'd');
    assert("manual"@[0] == 'm');
    assert("accept-edits"@[1] == 'c' && "auto"@[1] == 'u');
    assert("accept-edits"@[0] == 'a');
}

// ---------------------------------------------------------------------------------------------
// Settings
// ---------------------------------------------------------------------------------------------

/// A limit on credits: the bits of the double, the limit in millionths of a credit, and whether the
/// double is not zero or less.
#[derive(Debug, Clone, Copy, PartialEq, Eq, Structural)]
pub struct CreditLimit {
    pub bits: u64,
    pub micro: u64,
    pub positive: bool,
}

/// What the bits of a double hold besides its sign.
pub open spec fn magnitude(bits: u64) -> int {
    bits as int % 0x8000_0000_0000_0000
}

/// Whether the bits of two doubles stand for equal numbers: the two zeros are equal, and what is not
/// a number is equal to nothing.
pub open spec fn equal_doubles(a: u64, b: u64) -> bool {
    &&& magnitude(a) <= 0x7ff0_0000_0000_0000
    &&& magnitude(b) <= 0x7ff0_0000_0000_0000
    &&& a == b || magnitude(a) == 0 && magnitude(b) == 0
}

/// Whether two limits are the same.
pub open spec fn equal_limits(a: Option<CreditLimit>, b: Option<CreditLimit>) -> bool {
    match (a, b) {
        (None, None) => true,
        (Some(x), Some(y)) => equal_doubles(x.bits, y.bits),
        _ => false,
    }
}

/// Whether two limits are the same.
pub fn same_limits(a: Option<CreditLimit>, b: Option<CreditLimit>) -> (r: bool)
    ensures
        r == equal_limits(a, b),
{
    match (a, b) {
        (None, None) => true,
        (Some(x), Some(y)) => {
            let left: u64 = x.bits % 0x8000_0000_0000_0000;
            let right: u64 = y.bits % 0x8000_0000_0000_0000;
            left <= 0x7ff0_0000_0000_0000 && right <= 0x7ff0_0000_0000_0000 && (x.bits == y.bits
                || left == 0 && right == 0)
        },
        _ => false,
    }
}

/// The settings of the program.
#[derive(Debug, Clone, PartialEq, Eq)]
pub struct RoninConfig {
    pub api_url: String,
    pub default_model: Option<String>,
    pub internal_model: Option<String>,
    pub permission_mode: PermissionMode,
    pub allowed_tools: Vec<String>,
    pub denied_tools: Vec<String>,
    pub allowed_commands: Vec<String>,
    pub denied_commands: Vec<String>,
    pub web_search: bool,
    pub max_credits: Option<CreditLimit>,
    pub max_rounds: u32,
}

impl Default for RoninConfig {
    fn default() -> (r: Self)
        ensures
            r.api_url@ == "https://chat-api.ronin.africa"@,
            r.default_model is None,
            r.internal_model is None,
            r.permission_mode == PermissionMode::Default,
            r.allowed_tools@.len() == 0,
            r.denied_tools@.len() == 0,
            r.allowed_commands@.len() == 0,
            r.denied_commands@.len() == 0,
            r.web_search,
            r.max_credits is None,
            r.max_rounds == 50,
    {
        RoninConfig {
            api_url: "https://chat-api.ronin.africa".to_owned(),
            default_model: None,
            internal_model: None,
            permission_mode: PermissionMode::Default,
            allowed_tools: Vec::new(),
            denied_tools: Vec::new(),
            allowed_commands: Vec::new(),
            denied_commands: Vec::new(),
            web_search: true,
            max_credits: None,
            max_rounds: 50,
        }
    }
}

/// Why settings cannot be used.
#[derive(Debug, Clone, PartialEq, Eq)]
pub enum ConfigError {
    /// A file, and what is wrong with it.
    Toml(String, String),
    Invalid(String),
}

/// The mathematical value of a [`ConfigError`].
pub enum ConfigErrorView {
    Toml(Seq<char>, Seq<char>),
    Invalid(Seq<char>),
}

impl View for ConfigError {
    type V = ConfigErrorView;

    open spec fn view(&self) -> ConfigErrorView {
        match self {
            ConfigError::Toml(path, message) => ConfigErrorView::Toml(path@, message@),
            ConfigError::Invalid(message) => ConfigErrorView::Invalid(message@),
        }
    }
}

/// An error as it is shown.
pub open spec fn config_error_text(error: ConfigErrorView) -> Seq<char> {
    match error {
        ConfigErrorView::Toml(path, message) => "Invalid TOML in "@ + path + ": "@ + message,
        ConfigErrorView::Invalid(message) => "Invalid Ronin config: "@ + message,
    }
}

impl ConfigError {
    /// The error as it is shown.
    pub fn message(&self) -> (r: String)
        ensures
            r@ == config_error_text(self@),
    {
        match self {
            ConfigError::Toml(path, message) => cat4(
                "Invalid TOML in ",
                path.as_str(),
                ": ",
                message.as_str(),
            ),
            ConfigError::Invalid(message) => cat2("Invalid Ronin config: ", message.as_str()),
        }
    }
}

/// Settings by name: the text of each value, as it stands in TOML. Of two entries of one name the
/// later counts.
pub type Layer = Seq<(Seq<char>, Seq<char>)>;

/// The settings that entries stand for.
pub open spec fn layer_map(entries: Layer) -> Map<Seq<char>, Seq<char>>
    decreases entries.len(),
{
    if entries.len() == 0 {
        Map::empty()
    } else {
        layer_map(entries.drop_last()).insert(entries.last().0, entries.last().1)
    }
}

/// What `toml::from_str` reads in a text as a table, each value in the text that `toml` writes for
/// it; or the text of its error.
pub uninterp spec fn toml_entries(text: Seq<char>) -> Result<
    Seq<(Seq<char>, Seq<char>)>,
    Seq<char>,
>;

/// What `toml::Value::to_string` writes for a text.
pub uninterp spec fn toml_quoted(text: Seq<char>) -> Seq<char>;

/// `toml::from_str`: the entries of a TOML document, each value in the text that
/// `toml::Value::to_string` writes for it; or the text of the error.
#[verifier::external_body]
fn read_toml(text: &str) -> (r: Result<Vec<(String, String)>, String>)
    ensures
        match r {
            Ok(entries) => toml_entries(text@) == Ok::<Layer, Seq<char>>(entries.deep_view()),
            Err(message) => toml_entries(text@) == Err::<Layer, Seq<char>>(message@),
        },
{
    match toml::from_str::<toml::Table>(text) {
        Ok(table) => Ok(table.iter().map(|(key, value)| (key.clone(), value.to_string())).collect()),
        Err(error) => Err(error.to_string()),
    }
}

/// `toml::Value::to_string`: a text as it stands in TOML.
#[verifier::external_body]
fn quote_toml(text: &str) -> (r: String)
    ensures
        r@ == toml_quoted(text@),
{
    toml::Value::String(text.to_owned()).to_string()
}

/// A TOML document with one setting changed or added, as `toml_edit` writes it; or the text of the
/// error where the document or the value cannot be read.
pub uninterp spec fn toml_set(document: Seq<char>, key: Seq<char>, value: Seq<char>) -> Result<
    Seq<char>,
    Seq<char>,
>;

/// `toml_edit::DocumentMut`: a document with one setting changed or added, the value given as it
/// stands in TOML; or the text of the error where the document or the value cannot be read.
#[verifier::external_body]
fn set_toml(document: &str, key: &str, value: &str) -> (r: Result<String, String>)
    ensures
        outcome(r) == toml_set(document@, key@, value@),
{
    let mut parsed = match document.parse::<toml_edit::DocumentMut>() {
        Ok(parsed) => parsed,
        Err(error) => return Err(error.to_string()),
    };
    match value.parse::<toml_edit::Value>() {
        Ok(value) => parsed[key] = toml_edit::value(value),
        Err(error) => return Err(error.to_string()),
    }
    Ok(parsed.to_string())
}

/// A file of settings: its path, and its text where it exists, or why it could not be read.
#[derive(Debug, PartialEq, Eq)]
pub struct LayerFile {
    pub path: String,
    pub text: Result<Option<String>, String>,
}

/// The settings of a file.
pub open spec fn file_layer(file: LayerFile) -> Result<Layer, ConfigErrorView> {
    match file.text {
        Err(message) => Err(ConfigErrorView::Toml(file.path@, message@)),
        Ok(None) => Ok(Seq::empty()),
        Ok(Some(text)) => match toml_entries(text@) {
            Err(message) => Err(ConfigErrorView::Toml(file.path@, message)),
            Ok(entries) => Ok(entries),
        },
    }
}

/// A number given in the environment, and its value as it stands in TOML; nothing where it is not a
/// number.
#[derive(Debug, PartialEq, Eq)]
pub struct EnvNumber {
    pub raw: String,
    pub value: Option<String>,
}

/// What the environment says of the settings.
#[derive(Debug, PartialEq, Eq)]
pub struct EnvSettings {
    pub api_url: Option<String>,
    pub model: Option<String>,
    pub internal_model: Option<String>,
    pub permission_mode: Option<String>,
    pub web_search: Option<String>,
    pub allowed_tools: Option<String>,
    pub denied_tools: Option<String>,
    pub allowed_commands: Option<String>,
    pub denied_commands: Option<String>,
    pub max_credits: Option<EnvNumber>,
    pub max_rounds: Option<EnvNumber>,
}

/// The setting that a text in the environment makes: an empty one makes none.
pub open spec fn text_setting(key: Seq<char>, value: Option<Seq<char>>) -> Layer {
    match value {
        Some(v) => if v.len() > 0 {
            seq![(key, toml_quoted(v))]
        } else {
            Seq::empty()
        },
        None => Seq::empty(),
    }
}

/// The switch that a word stands for.
pub open spec fn switch_of(word: Seq<char>) -> Option<bool> {
    let w = ascii_lower(word);
    if w == "1"@ || w == "true"@ || w == "yes"@ || w == "on"@ {
        Some(true)
    } else if w == "0"@ || w == "false"@ || w == "no"@ || w == "off"@ {
        Some(false)
    } else {
        None
    }
}

/// The setting that a switch in the environment makes.
pub open spec fn switch_setting(value: Option<Seq<char>>) -> Result<Layer, ConfigErrorView> {
    match value {
        Some(v) => if v.len() == 0 {
            Ok(Seq::empty())
        } else {
            match switch_of(v) {
                Some(on) => Ok(
                    seq![
                        (
                            "web_search"@,
                            if on {
                                "true"@
                            } else {
                                "false"@
                            },
                        ),
                    ],
                ),
                None => Err(ConfigErrorView::Invalid("web_search: expected true or false"@)),
            }
        },
        None => Ok(Seq::empty()),
    }
}

/// The items of pieces: each without white space around it, blank ones left out.
pub open spec fn items_in(pieces: Seq<Seq<char>>) -> Seq<Seq<char>>
    decreases pieces.len(),
{
    if pieces.len() == 0 {
        Seq::empty()
    } else if trimmed(pieces.last()).len() == 0 {
        items_in(pieces.drop_last())
    } else {
        items_in(pieces.drop_last()).push(trimmed(pieces.last()))
    }
}

/// Texts as they stand in TOML.
pub open spec fn all_quoted(items: Seq<Seq<char>>) -> Seq<Seq<char>> {
    items.map_values(|s: Seq<char>| toml_quoted(s))
}

/// The setting that a list with commas in the environment makes.
pub open spec fn list_setting(key: Seq<char>, value: Option<Seq<char>>) -> Layer {
    match value {
        Some(v) => if v.len() > 0 {
            seq![
                (key, "["@ + joined(all_quoted(items_in(split_on(v, ','))), ", "@) + "]"@),
            ]
        } else {
            Seq::empty()
        },
        None => Seq::empty(),
    }
}

/// The setting that a number in the environment makes.
pub open spec fn number_setting(key: Seq<char>, value: Option<EnvNumber>) -> Result<
    Layer,
    ConfigErrorView,
> {
    match value {
        Some(number) => if number.raw@.len() == 0 {
            Ok(Seq::empty())
        } else {
            match number.value {
                Some(text) => Ok(seq![(key, text@)]),
                None => Err(ConfigErrorView::Invalid(key + ": expected a number"@)),
            }
        },
        None => Ok(Seq::empty()),
    }
}

/// The settings that the texts in the environment make.
pub open spec fn text_layer(env: EnvSettings) -> Layer {
    text_setting("api_url"@, env.api_url.deep_view()) + text_setting(
        "default_model"@,
        env.model.deep_view(),
    ) + text_setting("internal_model"@, env.internal_model.deep_view()) + text_setting(
        "permission_mode"@,
        env.permission_mode.deep_view(),
    )
}

/// The settings that the lists in the environment make.
pub open spec fn list_layer(env: EnvSettings) -> Layer {
    list_setting("allowed_tools"@, env.allowed_tools.deep_view()) + list_setting(
        "denied_tools"@,
        env.denied_tools.deep_view(),
    ) + list_setting("allowed_commands"@, env.allowed_commands.deep_view()) + list_setting(
        "denied_commands"@,
        env.denied_commands.deep_view(),
    )
}

/// The settings that the environment makes.
pub open spec fn env_layer(env: EnvSettings) -> Result<Layer, ConfigErrorView> {
    match switch_setting(env.web_search.deep_view()) {
        Err(e) => Err(e),
        Ok(switch) => match number_setting("max_credits"@, env.max_credits) {
            Err(e) => Err(e),
            Ok(credits) => match number_setting("max_rounds"@, env.max_rounds) {
                Err(e) => Err(e),
                Ok(rounds) => Ok(text_layer(env) + switch + list_layer(env) + credits + rounds),
            },
        },
    }
}

/// The settings of all places: those of the user, then those of the project, then those of the
/// environment.
pub open spec fn all_layers(user: LayerFile, project: LayerFile, env: EnvSettings) -> Result<
    Layer,
    ConfigErrorView,
> {
    match file_layer(user) {
        Err(e) => Err(e),
        Ok(first) => match file_layer(project) {
            Err(e) => Err(e),
            Ok(second) => match env_layer(env) {
                Err(e) => Err(e),
                Ok(third) => Ok(first + second + third),
            },
        },
    }
}

/// The value of a result of settings.
pub open spec fn layer_outcome(r: Result<Vec<(String, String)>, ConfigError>) -> Result<
    Layer,
    ConfigErrorView,
> {
    match r {
        Ok(entries) => Ok(entries.deep_view()),
        Err(e) => Err(e@),
    }
}

fn load_layer(file: &LayerFile) -> (r: Result<Vec<(String, String)>, ConfigError>)
    ensures
        layer_outcome(r) == file_layer(*file),
{
    match &file.text {
        Err(message) => Err(ConfigError::Toml(file.path.clone(), message.clone())),
        Ok(None) => {
            let none: Vec<(String, String)> = Vec::new();
            assert(none.deep_view() =~= Seq::empty());
            Ok(none)
        },
        Ok(Some(text)) => match read_toml(text.as_str()) {
            Ok(entries) => Ok(entries),
            Err(message) => Err(ConfigError::Toml(file.path.clone(), message)),
        },
    }
}

fn extend(entries: &mut Vec<(String, String)>, more: Vec<(String, String)>)
    ensures
        final(entries).deep_view() == old(entries).deep_view() + more.deep_view(),
{
    let ghost before = entries.deep_view();
    let mut i: usize = 0;
    assert(before + more.deep_view().take(0) =~= before);
    while i < more.len()
        invariant
            i <= more@.len(),
            entries.deep_view() == before + more.deep_view().take(i as int),
        decreases more.len() - i,
    {
        let ghost now = entries.deep_view();
        let entry = (more[i].0.clone(), more[i].1.clone());
        entries.push(entry);
        assert(entries.deep_view() =~= now.push(entry.deep_view()));
        assert(entry.deep_view() == more.deep_view()[i as int]);
        assert(entries.deep_view() =~= before + more.deep_view().take(i + 1));
        i += 1;
    }
    assert(more.deep_view().take(i as int) =~= more.deep_view());
}

fn put(entries: &mut Vec<(String, String)>, key: &str, value: String)
    ensures
        final(entries).deep_view() == old(entries).deep_view().push((key@, value@)),
{
    let ghost before = entries.deep_view();
    let entry = (key.to_owned(), value);
    entries.push(entry);
    assert(entries.deep_view() =~= before.push(entry.deep_view()));
}

fn put_text(entries: &mut Vec<(String, String)>, key: &str, value: &Option<String>)
    ensures
        final(entries).deep_view() == old(entries).deep_view() + text_setting(
            key@,
            value.deep_view(),
        ),
{
    if let Some(text) = value {
        if !text.as_str().is_empty() {
            put(entries, key, quote_toml(text.as_str()));
        }
    }
}

fn quoted_items(value: &str) -> (r: Vec<String>)
    ensures
        texts(r@) == all_quoted(items_in(split_on(value@, ','))),
{
    let pieces = split_char(value, ',');
    let ghost all = texts(pieces@);
    let mut r: Vec<String> = Vec::new();
    let mut i: usize = 0;
    while i < pieces.len()
        invariant
            i <= pieces@.len(),
            all == texts(pieces@),
            texts(r@) == all_quoted(items_in(all.take(i as int))),
        decreases pieces.len() - i,
    {
        let ghost head = all.take(i + 1);
        assert(head.drop_last() =~= all.take(i as int));
        assert(head.last() == pieces@[i as int]@);
        let item = trim(pieces[i].as_str());
        if !item.as_str().is_empty() {
            let ghost before = texts(r@);
            let quoted = quote_toml(item.as_str());
            r.push(quoted);
            assert(texts(r@) =~= before.push(quoted@));
            assert(all_quoted(items_in(head)) =~= before.push(toml_quoted(item@)));
        }
        i += 1;
    }
    assert(all.take(i as int) =~= all);
    r
}

fn put_list(entries: &mut Vec<(String, String)>, key: &str, value: &Option<String>)
    ensures
        final(entries).deep_view() == old(entries).deep_view() + list_setting(
            key@,
            value.deep_view(),
        ),
{
    if let Some(text) = value {
        if !text.as_str().is_empty() {
            let items = join(&quoted_items(text.as_str()), ", ");
            put(entries, key, cat3("[", items.as_str(), "]"));
        }
    }
}

/// The switch that a word stands for.
pub fn parse_switch(word: &str) -> (r: Option<bool>)
    ensures
        r == switch_of(word@),
{
    let lower = lower_ascii(word);
    let w = lower.as_str();
    if same(w, "1") || same(w, "true") || same(w, "yes") || same(w, "on") {
        Some(true)
    } else if same(w, "0") || same(w, "false") || same(w, "no") || same(w, "off") {
        Some(false)
    } else {
        None
    }
}

fn put_number(entries: &mut Vec<(String, String)>, key: &str, value: &Option<EnvNumber>) -> (r:
    Result<(), ConfigError>)
    ensures
        match r {
            Ok(_) => number_setting(key@, *value) is Ok && final(entries).deep_view() == old(
                entries,
            ).deep_view() + number_setting(key@, *value)->Ok_0,
            Err(e) => number_setting(key@, *value) == Err::<Layer, ConfigErrorView>(e@),
        },
{
    if let Some(number) = value {
        if !number.raw.as_str().is_empty() {
            match &number.value {
                Some(text) => {
                    put(entries, key, text.clone());
                },
                None => return Err(ConfigError::Invalid(cat2(key, ": expected a number"))),
            }
        }
    }
    Ok(())
}

fn text_settings(env: &EnvSettings) -> (r: Vec<(String, String)>)
    ensures
        r.deep_view() == text_layer(*env),
{
    let mut entries: Vec<(String, String)> = Vec::new();
    assert(entries.deep_view() =~= Seq::empty());
    put_text(&mut entries, "api_url", &env.api_url);
    put_text(&mut entries, "default_model", &env.model);
    put_text(&mut entries, "internal_model", &env.internal_model);
    put_text(&mut entries, "permission_mode", &env.permission_mode);
    assert(entries.deep_view() =~= text_layer(*env));
    entries
}

fn put_switch(entries: &mut Vec<(String, String)>, value: &Option<String>) -> (r: Result<
    (),
    ConfigError,
>)
    ensures
        match r {
            Ok(_) => switch_setting(value.deep_view()) is Ok && final(entries).deep_view() == old(
                entries,
            ).deep_view() + switch_setting(value.deep_view())->Ok_0,
            Err(e) => switch_setting(value.deep_view()) == Err::<Layer, ConfigErrorView>(e@),
        },
{
    if let Some(text) = value {
        if !text.as_str().is_empty() {
            match parse_switch(text.as_str()) {
                Some(true) => put(entries, "web_search", "true".to_owned()),
                Some(false) => put(entries, "web_search", "false".to_owned()),
                None => return Err(
                    ConfigError::Invalid("web_search: expected true or false".to_owned()),
                ),
            }
        }
    }
    Ok(())
}

fn put_lists(entries: &mut Vec<(String, String)>, env: &EnvSettings)
    ensures
        final(entries).deep_view() == old(entries).deep_view() + list_layer(*env),
{
    let ghost before = entries.deep_view();
    put_list(entries, "allowed_tools", &env.allowed_tools);
    put_list(entries, "denied_tools", &env.denied_tools);
    put_list(entries, "allowed_commands", &env.allowed_commands);
    put_list(entries, "denied_commands", &env.denied_commands);
    assert(entries.deep_view() =~= before + list_layer(*env));
}

/// The settings that the environment makes.
pub fn env_settings(env: &EnvSettings) -> (r: Result<Vec<(String, String)>, ConfigError>)
    ensures
        layer_outcome(r) == env_layer(*env),
{
    let mut entries = text_settings(env);
    if let Err(e) = put_switch(&mut entries, &env.web_search) {
        return Err(e);
    }
    put_lists(&mut entries, env);
    if let Err(e) = put_number(&mut entries, "max_credits", &env.max_credits) {
        return Err(e);
    }
    if let Err(e) = put_number(&mut entries, "max_rounds", &env.max_rounds) {
        return Err(e);
    }
    Ok(entries)
}

/// The settings of all places, the later of two entries of one name counting.
pub fn load_layers(user: &LayerFile, project: &LayerFile, env: &EnvSettings) -> (r: Result<
    Vec<(String, String)>,
    ConfigError,
>)
    ensures
        layer_outcome(r) == all_layers(*user, *project, *env),
{
    let mut entries = match load_layer(user) {
        Ok(entries) => entries,
        Err(e) => return Err(e),
    };
    match load_layer(project) {
        Ok(more) => extend(&mut entries, more),
        Err(e) => return Err(e),
    }
    match env_settings(env) {
        Ok(more) => extend(&mut entries, more),
        Err(e) => return Err(e),
    }
    Ok(entries)
}

/// What is wrong with settings.
pub open spec fn config_problem(config: RoninConfig) -> Option<Seq<char>> {
    if !begins_with(config.api_url@, "http://"@) && !begins_with(config.api_url@, "https://"@) {
        Some("api_url: expected an HTTP(S) URL"@)
    } else if config.max_rounds == 0 || config.max_rounds > 200 {
        Some("max_rounds: must be from 1 to 200"@)
    } else if config.max_credits is Some && !config.max_credits->0.positive {
        Some("max_credits: must be positive"@)
    } else {
        None
    }
}

/// Checks settings.
pub fn check_config(config: RoninConfig) -> (r: Result<RoninConfig, ConfigError>)
    ensures
        match r {
            Ok(c) => c == config && config_problem(config) is None,
            Err(e) => e@ is Invalid && config_problem(config) == Some(e@->Invalid_0),
        },
{
    if !starts_with(config.api_url.as_str(), "http://") && !starts_with(
        config.api_url.as_str(),
        "https://",
    ) {
        return Err(ConfigError::Invalid("api_url: expected an HTTP(S) URL".to_owned()));
    }
    if config.max_rounds == 0 || config.max_rounds > 200 {
        return Err(ConfigError::Invalid("max_rounds: must be from 1 to 200".to_owned()));
    }
    if let Some(limit) = config.max_credits {
        if !limit.positive {
            return Err(ConfigError::Invalid("max_credits: must be positive".to_owned()));
        }
    }
    Ok(config)
}

/// Whether no two entries have the same name.
pub open spec fn distinct_names(entries: Layer) -> bool {
    forall|i: int, j: int| 0 <= i < j < entries.len() ==> entries[i].0 != entries[j].0
}

/// The place of the entry of a name from a place on; the number of entries where there is none.
pub open spec fn entry_index(entries: Layer, key: Seq<char>, from: int) -> int
    decreases entries.len() - from,
{
    if from < 0 || from >= entries.len() {
        entries.len() as int
    } else if entries[from].0 == key {
        from
    } else {
        entry_index(entries, key, from + 1)
    }
}

proof fn entry_index_bounds(entries: Layer, key: Seq<char>, from: int)
    requires
        0 <= from <= entries.len(),
    ensures
        from <= entry_index(entries, key, from) <= entries.len(),
        entry_index(entries, key, from) < entries.len() ==> entries[entry_index(
            entries,
            key,
            from,
        )].0 == key,
        forall|k: int|
            from <= k < entry_index(entries, key, from) ==> (#[trigger] entries[k]).0 != key,
    decreases entries.len() - from,
{
    if from < entries.len() && entries[from].0 != key {
        entry_index_bounds(entries, key, from + 1);
    }
}

/// Entries of distinct names with the value of one changed, or the entry added.
pub open spec fn entry_set(entries: Layer, key: Seq<char>, value: Seq<char>) -> Layer {
    let at = entry_index(entries, key, 0);
    if at < entries.len() {
        entries.update(at, (key, value))
    } else {
        entries.push((key, value))
    }
}

proof fn map_of_update(entries: Layer, at: int, key: Seq<char>, value: Seq<char>)
    requires
        distinct_names(entries),
        0 <= at < entries.len(),
        entries[at].0 == key,
    ensures
        layer_map(entries.update(at, (key, value))) == layer_map(entries).insert(key, value),
    decreases entries.len(),
{
    let after = entries.update(at, (key, value));
    if at == entries.len() - 1 {
        assert(after.drop_last() =~= entries.drop_last());
        assert(layer_map(after) =~= layer_map(entries).insert(key, value));
    } else {
        assert(after.drop_last() =~= entries.drop_last().update(at, (key, value)));
        assert(after.last() == entries.last());
        assert(entries.last().0 != key);
        map_of_update(entries.drop_last(), at, key, value);
        assert(layer_map(after) =~= layer_map(entries).insert(key, value));
    }
}

proof fn entry_set_sets(entries: Layer, key: Seq<char>, value: Seq<char>)
    requires
        distinct_names(entries),
    ensures
        distinct_names(entry_set(entries, key, value)),
        layer_map(entry_set(entries, key, value)) == layer_map(entries).insert(key, value),
{
    let at = entry_index(entries, key, 0);
    entry_index_bounds(entries, key, 0);
    if at < entries.len() {
        map_of_update(entries, at, key, value);
    } else {
        assert(entries.push((key, value)).drop_last() =~= entries);
    }
}

fn set_entry(entries: &mut Vec<(String, String)>, key: String, value: String)
    ensures
        final(entries).deep_view() == entry_set(old(entries).deep_view(), key@, value@),
{
    let ghost all = entries.deep_view();
    let mut i: usize = 0;
    while i < entries.len()
        invariant
            i <= entries@.len(),
            all == entries.deep_view(),
            entry_index(all, key@, 0) == entry_index(all, key@, i as int),
        ensures
            entry_index(all, key@, 0) == i,
            i <= entries@.len(),
        decreases entries.len() - i,
    {
        assert(all[i as int] == entries@[i as int].deep_view());
        if same(entries[i].0.as_str(), key.as_str()) {
            break;
        }
        i += 1;
    }
    let ghost entry = (key@, value@);
    if i < entries.len() {
        entries[i] = (key, value);
        assert(entries.deep_view() =~= all.update(i as int, entry));
    } else {
        entries.push((key, value));
        assert(entries.deep_view() =~= all.push(entry));
    }
}

/// The settings that entries stand for, each once: of two entries of one name the later counts.
pub fn merge_entries(entries: Vec<(String, String)>) -> (r: Vec<(String, String)>)
    ensures
        distinct_names(r.deep_view()),
        layer_map(r.deep_view()) == layer_map(entries.deep_view()),
{
    let ghost all = entries.deep_view();
    let mut r: Vec<(String, String)> = Vec::new();
    let mut i: usize = 0;
    assert(r.deep_view() =~= Seq::empty());
    assert(all.take(0) =~= Seq::empty());
    while i < entries.len()
        invariant
            i <= entries@.len(),
            all == entries.deep_view(),
            distinct_names(r.deep_view()),
            layer_map(r.deep_view()) == layer_map(all.take(i as int)),
        decreases entries.len() - i,
    {
        let ghost before = r.deep_view();
        assert(all[i as int] == entries@[i as int].deep_view());
        assert(all.take(i + 1).drop_last() =~= all.take(i as int));
        proof {
            entry_set_sets(before, all[i as int].0, all[i as int].1);
        }
        set_entry(&mut r, entries[i].0.clone(), entries[i].1.clone());
        i += 1;
    }
    assert(all.take(i as int) =~= all);
    r
}

/// The settings of the user, then of the project, then of the environment, each name once: the later
/// counts.
pub fn merged_settings(user: &LayerFile, project: &LayerFile, env: &EnvSettings) -> (r: Result<
    Vec<(String, String)>,
    ConfigError,
>)
    ensures
        match all_layers(*user, *project, *env) {
            Ok(entries) => r matches Ok(merged) && distinct_names(merged.deep_view()) && layer_map(
                merged.deep_view(),
            ) == layer_map(entries),
            Err(e) => r matches Err(error) && error@ == e,
        },
{
    match load_layers(user, project, env) {
        Ok(entries) => Ok(merge_entries(entries)),
        Err(e) => Err(e),
    }
}

/// Checks defaults that are to be kept: the name of a model, of at most 128 bytes, and a limit on
/// credits, which `usable` says to be finite and more than nothing.
pub fn check_defaults(model: &str, usable: bool) -> (r: Result<(), ConfigError>)
    ensures
        match r {
            Ok(_) => !blank(model@) && encode_utf8(model@).len() <= 128 && usable,
            Err(e) => (blank(model@) || encode_utf8(model@).len() > 128 || !usable) && e@
                == ConfigErrorView::Invalid("desktop defaults are invalid"@),
        },
{
    if is_blank(model) || model.as_bytes().len() > 128 || !usable {
        Err(ConfigError::Invalid("desktop defaults are invalid".to_owned()))
    } else {
        Ok(())
    }
}

/// A document of settings with other defaults; the limit on credits is given as it stands in TOML.
pub open spec fn with_defaults(
    document: Seq<char>,
    model: Seq<char>,
    mode: PermissionMode,
    credits: Seq<char>,
) -> Result<Seq<char>, Seq<char>> {
    match toml_set(document, "default_model"@, toml_quoted(model)) {
        Err(e) => Err(e),
        Ok(modelled) => match toml_set(
            modelled,
            "permission_mode"@,
            toml_quoted(default_mode_name(mode)),
        ) {
            Err(e) => Err(e),
            Ok(moded) => toml_set(moded, "max_credits"@, credits),
        },
    }
}

/// A file of settings with other defaults.
pub fn update_defaults(
    path: &str,
    document: &str,
    model: &str,
    mode: PermissionMode,
    credits: &str,
) -> (r: Result<String, ConfigError>)
    ensures
        match with_defaults(document@, model@, mode, credits@) {
            Ok(text) => r matches Ok(given) && given@ == text,
            Err(e) => r matches Err(error) && error@ == ConfigErrorView::Toml(path@, e),
        },
{
    let modelled = match set_toml(document, "default_model", quote_toml(model).as_str()) {
        Ok(text) => text,
        Err(e) => return Err(ConfigError::Toml(path.to_owned(), e)),
    };
    let moded = match set_toml(
        modelled.as_str(),
        "permission_mode",
        quote_toml(mode.default_name()).as_str(),
    ) {
        Ok(text) => text,
        Err(e) => return Err(ConfigError::Toml(path.to_owned(), e)),
    };
    match set_toml(moded.as_str(), "max_credits", credits) {
        Ok(text) => Ok(text),
        Err(e) => Err(ConfigError::Toml(path.to_owned(), e)),
    }
}

// ---------------------------------------------------------------------------------------------
// Laws
// ---------------------------------------------------------------------------------------------

/// Later settings override earlier ones of the same name and leave the others.
pub proof fn later_settings_override(first: Layer, second: Layer)
    ensures
        layer_map(first + second) == layer_map(first).union_prefer_right(layer_map(second)),
    decreases second.len(),
{
    if second.len() == 0 {
        assert(first + second =~= first);
        assert(layer_map(first).union_prefer_right(layer_map(second)) =~= layer_map(first));
    } else {
        let all = first + second;
        assert(all.drop_last() =~= first + second.drop_last());
        assert(all.last() == second.last());
        later_settings_override(first, second.drop_last());
        assert(layer_map(all) =~= layer_map(first).union_prefer_right(layer_map(second)));
    }
}

/// The value of a name among settings.
pub open spec fn setting(entries: Layer, key: Seq<char>) -> Option<Seq<char>> {
    if layer_map(entries).contains_key(key) {
        Some(layer_map(entries)[key])
    } else {
        None
    }
}

/// The value of a name is that of its last entry; a name without an entry has none.
pub proof fn the_last_entry_of_a_name_counts(entries: Layer, key: Seq<char>, i: int)
    requires
        -1 <= i < entries.len(),
        i >= 0 ==> entries[i].0 == key,
        forall|j: int| i < j < entries.len() ==> (#[trigger] entries[j]).0 != key,
    ensures
        setting(entries, key) == if i >= 0 {
            Some(entries[i].1)
        } else {
            None
        },
    decreases entries.len(),
{
    if entries.len() > 0 && i < entries.len() - 1 {
        assert(entries[entries.len() - 1].0 != key);
        the_last_entry_of_a_name_counts(entries.drop_last(), key, i);
    }
}

proof fn setting_of_both(first: Layer, second: Layer, key: Seq<char>)
    ensures
        setting(first + second, key) == match setting(second, key) {
            Some(value) => Some(value),
            None => setting(first, key),
        },
{
    later_settings_override(first, second);
}

proof fn setting_of_one(entries: Layer, name: Seq<char>, key: Seq<char>)
    requires
        entries.len() <= 1,
        entries.len() == 1 ==> entries[0].0 == name,
    ensures
        setting(entries, key) == if entries.len() == 1 && key == name {
            Some(entries[0].1)
        } else {
            None
        },
{
    if entries.len() == 1 {
        assert(layer_map(entries.drop_last()) =~= Map::empty());
    }
}

/// What a setting is where the environment may give a text for it: an empty one counts as not given.
pub open spec fn text_given(value: Option<String>, other: Option<Seq<char>>) -> Option<Seq<char>> {
    match value {
        Some(text) => if text@.len() > 0 {
            Some(toml_quoted(text@))
        } else {
            other
        },
        None => other,
    }
}

/// The items of a list with commas: what stands between the commas without the white space around
/// it, where that is not nothing.
pub open spec fn listed_items(text: Seq<char>) -> Seq<Seq<char>> {
    split_on(text, ',').map_values(|piece: Seq<char>| trimmed(piece)).filter(
        |item: Seq<char>| item.len() > 0,
    )
}

/// What a setting is where the environment may give a list for it.
pub open spec fn list_given(value: Option<String>, other: Option<Seq<char>>) -> Option<Seq<char>> {
    match value {
        Some(text) => if text@.len() > 0 {
            Some(
                "["@ + joined(
                    listed_items(text@).map_values(|item: Seq<char>| toml_quoted(item)),
                    ", "@,
                ) + "]"@,
            )
        } else {
            other
        },
        None => other,
    }
}

/// What a setting is where the environment may give a switch for it.
pub open spec fn switch_given(value: Option<String>, other: Option<Seq<char>>) -> Option<Seq<char>> {
    match value {
        Some(text) => if text@.len() > 0 {
            Some(
                if switch_of(text@) == Some(true) {
                    "true"@
                } else {
                    "false"@
                },
            )
        } else {
            other
        },
        None => other,
    }
}

/// What a setting is where the environment may give a number for it.
pub open spec fn number_given(value: Option<EnvNumber>, other: Option<Seq<char>>) -> Option<
    Seq<char>,
> {
    match value {
        Some(number) => if number.raw@.len() > 0 {
            Some(number.value->0@)
        } else {
            other
        },
        None => other,
    }
}

/// The items of pieces are the pieces without the white space around them, but for those that are
/// nothing then.
pub proof fn items_are_the_trimmed_pieces(pieces: Seq<Seq<char>>)
    ensures
        items_in(pieces) == pieces.map_values(|piece: Seq<char>| trimmed(piece)).filter(
            |item: Seq<char>| item.len() > 0,
        ),
    decreases pieces.len(),
{
    reveal(Seq::filter);
    let all = pieces.map_values(|piece: Seq<char>| trimmed(piece));
    if pieces.len() > 0 {
        items_are_the_trimmed_pieces(pieces.drop_last());
        assert(all.drop_last() =~= pieces.drop_last().map_values(
            |piece: Seq<char>| trimmed(piece),
        ));
        assert(all.last() == trimmed(pieces.last()));
    }
}

/// The names of the settings that the environment can make.
pub open spec fn env_names() -> Seq<Seq<char>> {
    seq![
        "api_url"@,
        "default_model"@,
        "internal_model"@,
        "permission_mode"@,
        "web_search"@,
        "allowed_tools"@,
        "denied_tools"@,
        "allowed_commands"@,
        "denied_commands"@,
        "max_credits"@,
        "max_rounds"@,
    ]
}

proof fn env_names_are_distinct()
    ensures
        "api_url"@.len() == 7,
        "default_model"@.len() == 13,
        "internal_model"@.len() == 14,
        "permission_mode"@.len() == 15,
        "web_search"@.len() == 10,
        "allowed_tools"@.len() == 13,
        "denied_tools"@.len() == 12,
        "allowed_commands"@.len() == 16,
        "denied_commands"@.len() == 15,
        "max_credits"@.len() == 11,
        "max_rounds"@.len() == 10,
        "default_model"@ != "allowed_tools"@,
        "permission_mode"@ != "denied_commands"@,
        "web_search"@ != "max_rounds"@,
{
    reveal_strlit("api_url");
    reveal_strlit("default_model");
    reveal_strlit("internal_model");
    reveal_strlit("permission_mode");
    reveal_strlit("web_search");
    reveal_strlit("allowed_tools");
    reveal_strlit("denied_tools");
    reveal_strlit("allowed_commands");
    reveal_strlit("denied_commands");
    reveal_strlit("max_credits");
    reveal_strlit("max_rounds");
    assert("default_model"@[0] != "allowed_tools"@[0]);
    assert("permission_mode"@[0] != "denied_commands"@[0]);
    assert("web_search"@[0] != "max_rounds"@[0]);
}

proof fn setting_of_the_environment(env: EnvSettings, key: Seq<char>)
    requires
        env_layer(env) is Ok,
    ensures
        ({
            let s = setting(env_layer(env)->Ok_0, key);
            &&& key == "api_url"@ ==> s == text_given(env.api_url, None)
            &&& key == "default_model"@ ==> s == text_given(env.model, None)
            &&& key == "internal_model"@ ==> s == text_given(env.internal_model, None)
            &&& key == "permission_mode"@ ==> s == text_given(env.permission_mode, None)
            &&& key == "web_search"@ ==> s == switch_given(env.web_search, None)
            &&& key == "allowed_tools"@ ==> s == list_given(env.allowed_tools, None)
            &&& key == "denied_tools"@ ==> s == list_given(env.denied_tools, None)
            &&& key == "allowed_commands"@ ==> s == list_given(env.allowed_commands, None)
            &&& key == "denied_commands"@ ==> s == list_given(env.denied_commands, None)
            &&& key == "max_credits"@ ==> s == number_given(env.max_credits, None)
            &&& key == "max_rounds"@ ==> s == number_given(env.max_rounds, None)
            &&& !env_names().contains(key) ==> s is None
        }),
{
    env_names_are_distinct();
    let n = env_names();
    let t0 = text_setting(n[0], env.api_url.deep_view());
    let t1 = text_setting(n[1], env.model.deep_view());
    let t2 = text_setting(n[2], env.internal_model.deep_view());
    let t3 = text_setting(n[3], env.permission_mode.deep_view());
    let t4 = switch_setting(env.web_search.deep_view())->Ok_0;
    let t5 = list_setting(n[5], env.allowed_tools.deep_view());
    let t6 = list_setting(n[6], env.denied_tools.deep_view());
    let t7 = list_setting(n[7], env.allowed_commands.deep_view());
    let t8 = list_setting(n[8], env.denied_commands.deep_view());
    let t9 = number_setting(n[9], env.max_credits)->Ok_0;
    let t10 = number_setting(n[10], env.max_rounds)->Ok_0;
    setting_of_one(t0, n[0], key);
    setting_of_one(t1, n[1], key);
    setting_of_one(t2, n[2], key);
    setting_of_one(t3, n[3], key);
    setting_of_one(t4, n[4], key);
    setting_of_one(t5, n[5], key);
    setting_of_one(t6, n[6], key);
    setting_of_one(t7, n[7], key);
    setting_of_one(t8, n[8], key);
    setting_of_one(t9, n[9], key);
    setting_of_one(t10, n[10], key);
    setting_of_both(t0, t1, key);
    setting_of_both(t0 + t1, t2, key);
    setting_of_both(t0 + t1 + t2, t3, key);
    setting_of_both(t5, t6, key);
    setting_of_both(t5 + t6, t7, key);
    setting_of_both(t5 + t6 + t7, t8, key);
    let texts = t0 + t1 + t2 + t3;
    let lists = t5 + t6 + t7 + t8;
    setting_of_both(texts, t4, key);
    setting_of_both(texts + t4, lists, key);
    setting_of_both(texts + t4 + lists, t9, key);
    setting_of_both(texts + t4 + lists + t9, t10, key);
    assert(env_layer(env)->Ok_0 == texts + t4 + lists + t9 + t10);
    list_is_quoted(env.allowed_tools);
    list_is_quoted(env.denied_tools);
    list_is_quoted(env.allowed_commands);
    list_is_quoted(env.denied_commands);
    assert(forall|i: int| 0 <= i < n.len() ==> n.contains(#[trigger] n[i]));
}

proof fn list_is_quoted(value: Option<String>)
    ensures
        value matches Some(text) ==> all_quoted(items_in(split_on(text@, ','))) == listed_items(
            text@,
        ).map_values(|item: Seq<char>| toml_quoted(item)),
{
    if let Some(text) = value {
        items_are_the_trimmed_pieces(split_on(text@, ','));
        assert(all_quoted(items_in(split_on(text@, ','))) =~= listed_items(text@).map_values(
            |item: Seq<char>| toml_quoted(item),
        ));
    }
}

/// The environment overrides the file of the project, and that the file of the user, setting by
/// setting: each variable that is given and not empty makes the setting it stands for, and a setting
/// whose variable is not given keeps the value of the files.
pub proof fn the_environment_overrides_the_files(
    user: LayerFile,
    project: LayerFile,
    env: EnvSettings,
    key: Seq<char>,
)
    requires
        all_layers(user, project, env) is Ok,
    ensures
        ({
            let s = setting(all_layers(user, project, env)->Ok_0, key);
            let files = match setting(file_layer(project)->Ok_0, key) {
                Some(value) => Some(value),
                None => setting(file_layer(user)->Ok_0, key),
            };
            &&& key == "api_url"@ ==> s == text_given(env.api_url, files)
            &&& key == "default_model"@ ==> s == text_given(env.model, files)
            &&& key == "internal_model"@ ==> s == text_given(env.internal_model, files)
            &&& key == "permission_mode"@ ==> s == text_given(env.permission_mode, files)
            &&& key == "web_search"@ ==> s == switch_given(env.web_search, files)
            &&& key == "allowed_tools"@ ==> s == list_given(env.allowed_tools, files)
            &&& key == "denied_tools"@ ==> s == list_given(env.denied_tools, files)
            &&& key == "allowed_commands"@ ==> s == list_given(env.allowed_commands, files)
            &&& key == "denied_commands"@ ==> s == list_given(env.denied_commands, files)
            &&& key == "max_credits"@ ==> s == number_given(env.max_credits, files)
            &&& key == "max_rounds"@ ==> s == number_given(env.max_rounds, files)
            &&& !env_names().contains(key) ==> s == files
        }),
{
    let first = file_layer(user)->Ok_0;
    let second = file_layer(project)->Ok_0;
    let third = env_layer(env)->Ok_0;
    setting_of_both(first, second, key);
    setting_of_both(first + second, third, key);
    setting_of_the_environment(env, key);
}

/// Settings are loaded exactly where both files can be read and hold TOML and the environment is in
/// order; a file that is not there makes no settings. Else the first of these that fails is told of,
/// a file by its path.
pub proof fn settings_load_or_say_why(user: LayerFile, project: LayerFile, env: EnvSettings)
    ensures
        all_layers(user, project, env) is Ok <==> file_layer(user) is Ok && file_layer(
            project,
        ) is Ok && env_layer(env) is Ok,
        file_layer(user) matches Err(e) ==> all_layers(user, project, env) == Err::<
            Layer,
            ConfigErrorView,
        >(e) && e is Toml && e->Toml_0 == user.path@,
        file_layer(user) is Ok ==> (file_layer(project) matches Err(e) ==> all_layers(
            user,
            project,
            env,
        ) == Err::<Layer, ConfigErrorView>(e) && e is Toml && e->Toml_0 == project.path@),
        user.text matches Ok(None) ==> file_layer(user) == Ok::<Layer, ConfigErrorView>(
            Seq::empty(),
        ),
        user.text matches Ok(Some(text)) ==> (toml_entries(text@) matches Ok(entries) ==> file_layer(
            user,
        ) == Ok::<Layer, ConfigErrorView>(entries)),
{
}

/// The environment is refused where a switch is no switch or a number no number, and says which; an
/// empty variable is as good as none.
pub proof fn the_environment_is_checked(env: EnvSettings)
    ensures
        ({
            let no_switch = env.web_search matches Some(text) && text@.len() > 0 && switch_of(
                text@,
            ) is None;
            let no_credits = env.max_credits matches Some(n) && n.raw@.len() > 0 && n.value is None;
            let no_rounds = env.max_rounds matches Some(n) && n.raw@.len() > 0 && n.value is None;
            &&& env_layer(env) is Ok <==> !no_switch && !no_credits && !no_rounds
            &&& no_switch ==> env_layer(env) == Err::<Layer, ConfigErrorView>(
                ConfigErrorView::Invalid("web_search: expected true or false"@),
            )
            &&& !no_switch && no_credits ==> env_layer(env) == Err::<Layer, ConfigErrorView>(
                ConfigErrorView::Invalid("max_credits"@ + ": expected a number"@),
            )
            &&& !no_switch && !no_credits && no_rounds ==> env_layer(env) == Err::<
                Layer,
                ConfigErrorView,
            >(ConfigErrorView::Invalid("max_rounds"@ + ": expected a number"@))
        }),
{
}

/// The words for a switch, whatever their case.
pub proof fn switches_are_words(word: Seq<char>)
    ensures
        ({
            let w = ascii_lower(word);
            &&& switch_of(word) == Some(true) <==> w == "1"@ || w == "true"@ || w == "yes"@ || w
                == "on"@
            &&& switch_of(word) == Some(false) <==> w == "0"@ || w == "false"@ || w == "no"@ || w
                == "off"@
        }),
{
    reveal_strlit("1");
    reveal_strlit("true");
    reveal_strlit("yes");
    reveal_strlit("on");
    reveal_strlit("0");
    reveal_strlit("false");
    reveal_strlit("no");
    reveal_strlit("off");
    assert("1"@[0] != "0"@[0]);
    assert("yes"@[0] != "off"@[0]);
    assert("on"@[0] != "no"@[0]);
    assert("1"@.len() == 1 && "true"@.len() == 4 && "yes"@.len() == 3 && "on"@.len() == 2);
    assert("0"@.len() == 1 && "false"@.len() == 5 && "no"@.len() == 2 && "off"@.len() == 3);
}

/// Settings are in order exactly where the address is one of the web, the rounds lie within bounds
/// and a limit on credits is positive.
pub proof fn settings_in_order(config: RoninConfig)
    ensures
        config_problem(config) is None <==> {
            &&& begins_with(config.api_url@, "http://"@) || begins_with(
                config.api_url@,
                "https://"@,
            )
            &&& 1 <= config.max_rounds <= 200
            &&& config.max_credits matches Some(limit) ==> limit.positive
        },
{
}

/// New defaults are put into the document one after the other: the model, the mode and the limit on
/// credits, each under its own name; skipping permissions is kept as the default mode.
pub proof fn defaults_are_put_under_their_names(
    document: Seq<char>,
    model: Seq<char>,
    mode: PermissionMode,
    credits: Seq<char>,
)
    ensures
        with_defaults(document, model, mode, credits) matches Ok(text) ==> exists|
            a: Seq<char>,
            b: Seq<char>,
            name: Seq<char>,
        |
            {
                &&& toml_set(document, "default_model"@, toml_quoted(model)) == Ok::<
                    Seq<char>,
                    Seq<char>,
                >(a)
                &&& #[trigger] toml_set(a, "permission_mode"@, toml_quoted(name)) == Ok::<
                    Seq<char>,
                    Seq<char>,
                >(b)
                &&& #[trigger] toml_set(b, "max_credits"@, credits) == Ok::<Seq<char>, Seq<char>>(
                    text,
                )
                &&& mode_named(name) == Some(
                    if mode == PermissionMode::Yolo {
                        PermissionMode::Default
                    } else {
                        mode
                    },
                )
            },
{
    mode_names_are_read_back(mode);
    mode_names_are_read_back(PermissionMode::Default);
    if let Ok(text) = with_defaults(document, model, mode, credits) {
        let a = toml_set(document, "default_model"@, toml_quoted(model))->Ok_0;
        let name = default_mode_name(mode);
        let b = toml_set(a, "permission_mode"@, toml_quoted(name))->Ok_0;
        assert(toml_set(b, "max_credits"@, credits) == Ok::<Seq<char>, Seq<char>>(text));
    }
}

/// The modes by their names in settings.
pub proof fn modes_have_their_names()
    ensures
        mode_named("default"@) == Some(PermissionMode::Default),
        mode_named("manual"@) == Some(PermissionMode::Default),
        mode_named("accept-edits"@) == Some(PermissionMode::AcceptEdits),
        mode_named("plan"@) == Some(PermissionMode::Plan),
        mode_named("auto"@) == Some(PermissionMode::Auto),
        mode_named("yolo"@) == Some(PermissionMode::Yolo),
        forall|name: Seq<char>| #[trigger]
            mode_named(name) is Some ==> name == "manual"@ || name == mode_name(
                mode_named(name)->0,
            ),
{
    mode_names_are_read_back(PermissionMode::Default);
    mode_names_are_read_back(PermissionMode::AcceptEdits);
    mode_names_are_read_back(PermissionMode::Plan);
    mode_names_are_read_back(PermissionMode::Auto);
    mode_names_are_read_back(PermissionMode::Yolo);
}

} // verus!
