//! The providers of telemetry and their configuration.
use crate::binary32::{Binary32, ZERO_BITS};
use crate::text::same_text;
use vstd::prelude::*;
use vstd::string::*;

verus! {

/// Configuration of a game provider.
#[derive(Debug, Clone, Copy, PartialEq, Eq, Structural)]
pub struct GameConfig {
    /// Maximum steering angle in degrees.
    pub max_steering_angle: Binary32,
    /// Deadzone for pedal inputs.
    pub pedal_deadzone: Binary32,
    /// Threshold for ABS activation detection.
    pub abs_threshold: Binary32,
}

impl Default for GameConfig {
    fn default() -> (r: Self)
        ensures
            r.max_steering_angle.bits == ZERO_BITS,
            r.pedal_deadzone.bits == ZERO_BITS,
            r.abs_threshold.bits == ZERO_BITS,
    {
        let zero = Binary32 { bits: ZERO_BITS };
        GameConfig { max_steering_angle: zero, pedal_deadzone: zero, abs_threshold: zero }
    }
}

/// Bit pattern of 180: half a turn of the wheel, in degrees.
pub const F1_HALF_LOCK_BITS: u32 = 0x4334_0000;

/// Bit pattern of 450: the half-lock angle where no provider states one.
pub const DEFAULT_HALF_LOCK_BITS: u32 = 0x43e1_0000;

/// The configuration of the F1 provider.
pub fn f1_game_config() -> (r: GameConfig)
    ensures
        r.max_steering_angle.bits == F1_HALF_LOCK_BITS,
        r.pedal_deadzone.bits == ZERO_BITS,
        r.abs_threshold.bits == ZERO_BITS,
{
    let zero = Binary32 { bits: ZERO_BITS };
    GameConfig {
        max_steering_angle: Binary32 { bits: F1_HALF_LOCK_BITS },
        pedal_deadzone: zero,
        abs_threshold: zero,
    }
}

/// The half-lock angle to show for a provider, if there is one.
pub fn steering_half_lock(config: Option<GameConfig>) -> (r: Binary32)
    ensures
        r == (match config {
            Some(config) => config.max_steering_angle,
            None => Binary32 { bits: DEFAULT_HALF_LOCK_BITS },
        }),
{
    match config {
        Some(config) => config.max_steering_angle,
        None => Binary32 { bits: DEFAULT_HALF_LOCK_BITS },
    }
}

/// Settings shared by the providers that need configuration.
#[derive(Debug, Clone, PartialEq, Eq)]
pub struct ProviderConfig {
    pub f1_bind_address: String,
    pub f1_udp_port: u16,
}

impl ProviderConfig {
    /// Whether both configurations ask for the same address and port.
    pub open spec fn same_as(self, other: ProviderConfig) -> bool {
        self.f1_bind_address@ == other.f1_bind_address@ && self.f1_udp_port == other.f1_udp_port
    }

    /// Whether both configurations ask for the same address and port.
    pub fn is_same(&self, other: &ProviderConfig) -> (r: bool)
        ensures
            r == self.same_as(*other),
    {
        self.f1_udp_port == other.f1_udp_port && same_text(
            self.f1_bind_address.as_str(),
            other.f1_bind_address.as_str(),
        )
    }
}

impl Default for ProviderConfig {
    fn default() -> (r: Self)
        ensures
            r.f1_bind_address@ == "0.0.0.0"@,
            r.f1_udp_port == 20777,
    {
        ProviderConfig { f1_bind_address: "0.0.0.0".to_owned(), f1_udp_port: 20777 }
    }
}

/// The collector part of the settings.
#[derive(Debug, Clone, PartialEq, Eq)]
pub struct CollectorSettings {
    pub plugin: String,
    pub f1_bind_address: String,
    pub f1_udp_port: u16,
}

/// Whether Unicode counts a character as whitespace.
pub open spec fn white_space(c: char) -> bool {
    ||| '\u{9}' <= c <= '\u{d}'
    ||| c == ' '
    ||| c == '\u{85}'
    ||| c == '\u{a0}'
    ||| c == '\u{1680}'
    ||| '\u{2000}' <= c <= '\u{200a}'
    ||| c == '\u{2028}'
    ||| c == '\u{2029}'
    ||| c == '\u{202f}'
    ||| c == '\u{205f}'
    ||| c == '\u{3000}'
}

/// The text without leading and trailing whitespace.
pub open spec fn trimmed(text: Seq<char>) -> Seq<char>
    decreases text.len(),
{
    if text.len() == 0 {
        text
    } else if white_space(text.first()) {
        trimmed(text.drop_first())
    } else if white_space(text.last()) {
        trimmed(text.drop_last())
    } else {
        text
    }
}

/// `str::trim` returns the text without its leading and trailing characters
/// that have Unicode's White_Space property.
#[verifier::external_body]
fn trim(text: &str) -> (r: String)
    ensures
        r@ == trimmed(text@),
{
    text.trim().to_owned()
}

/// The provider configuration that the settings ask for: the address without
/// surrounding whitespace.
pub fn provider_config(settings: &CollectorSettings) -> (r: ProviderConfig)
    ensures
        r.f1_bind_address@ == trimmed(settings.f1_bind_address@),
        r.f1_udp_port == settings.f1_udp_port,
{
    ProviderConfig {
        f1_bind_address: trim(settings.f1_bind_address.as_str()),
        f1_udp_port: settings.f1_udp_port,
    }
}

/// Whether a provider must be activated: another one is selected, or its
/// configuration has changed.
pub fn activation_needed(
    settings: &CollectorSettings,
    active_plugin: &str,
    active_config: &ProviderConfig,
) -> (r: bool)
    ensures
        r == !(settings.plugin@ == active_plugin@ && trimmed(settings.f1_bind_address@)
            == active_config.f1_bind_address@ && settings.f1_udp_port == active_config.f1_udp_port),
{
    !same_text(settings.plugin.as_str(), active_plugin) || !provider_config(settings).is_same(active_config)
}

/// The kinds of provider.
#[derive(Debug, Clone, Copy, PartialEq, Eq, Structural)]
pub enum PluginKind {
    AssettoCompetizione,
    Ams2,
    Iracing,
    F1,
    Mock,
}

/// The provider that a name in lower case stands for.
pub open spec fn kind_named(name: Seq<char>) -> Option<PluginKind> {
    if name == "assetto_competizione"@ || name == "assetto corsa competizione"@ || name == "acc"@ {
        Some(PluginKind::AssettoCompetizione)
    } else if name == "ams2"@ || name == "automobilista 2"@ || name == "automobilista2"@ {
        Some(PluginKind::Ams2)
    } else if name == "iracing"@ || name == "iracing_sdk"@ {
        Some(PluginKind::Iracing)
    } else if name == "f1"@ || name == "f1_25"@ || name == "f1 25"@ || name == "f1 2026"@ {
        Some(PluginKind::F1)
    } else if name == "mock"@ || name == "test"@ {
        Some(PluginKind::Mock)
    } else {
        None
    }
}

/// The provider that a name in lower case stands for.
pub fn kind_of_lower_case(name: &str) -> (r: Option<PluginKind>)
    ensures
        r == kind_named(name@),
{
    if same_text(name, "assetto_competizione") || same_text(name, "assetto corsa competizione") || same_text(
        name,
        "acc",
    ) {
        Some(PluginKind::AssettoCompetizione)
    } else if same_text(name, "ams2") || same_text(name, "automobilista 2") || same_text(name, "automobilista2") {
        Some(PluginKind::Ams2)
    } else if same_text(name, "iracing") || same_text(name, "iracing_sdk") {
        Some(PluginKind::Iracing)
    } else if same_text(name, "f1") || same_text(name, "f1_25") || same_text(name, "f1 25") || same_text(
        name,
        "f1 2026",
    ) {
        Some(PluginKind::F1)
    } else if same_text(name, "mock") || same_text(name, "test") {
        Some(PluginKind::Mock)
    } else {
        None
    }
}

/// The text in lower case.
pub uninterp spec fn lower_case(text: Seq<char>) -> Seq<char>;

/// An ASCII character in lower case.
pub open spec fn ascii_lower_char(c: char) -> char {
    if 'A' <= c <= 'Z' {
        (c as u32 + 32) as char
    } else {
        c
    }
}

/// Whether all characters of a text are ASCII.
pub open spec fn all_ascii(text: Seq<char>) -> bool {
    forall|i: int| 0 <= i < text.len() ==> (#[trigger] text[i]) <= '\u{7f}'
}

/// An ASCII text in lower case.
pub open spec fn ascii_lower(text: Seq<char>) -> Seq<char> {
    text.map_values(|c: char| ascii_lower_char(c))
}

/// `str::to_lowercase` returns the lowercase equivalent of the text by
/// Unicode's rules, which are left to the name. In an ASCII text each capital
/// letter becomes the small one and nothing else changes.
#[verifier::external_body]
fn to_lower_case(text: &str) -> (r: String)
    ensures
        r@ == lower_case(text@),
        all_ascii(text@) ==> r@ == ascii_lower(text@),
{
    text.to_lowercase()
}

/// The provider that a name stands for, whatever its capitals; none for a name
/// that is not known or whose provider does not exist on this platform.
///
/// Assetto Corsa Competizione only runs on Windows.
pub fn create_plugin(name: &str, on_windows: bool) -> (r: Option<PluginKind>)
    ensures
        r == available(kind_named(lower_case(name@)), on_windows),
        all_ascii(name@) ==> r == available(kind_named(ascii_lower(name@)), on_windows),
{
    only_available(kind_of_lower_case(to_lower_case(name).as_str()), on_windows)
}

/// The provider, unless it does not exist on this platform.
pub open spec fn available(kind: Option<PluginKind>, on_windows: bool) -> Option<PluginKind> {
    if kind == Some(PluginKind::AssettoCompetizione) && !on_windows {
        None
    } else {
        kind
    }
}

/// The provider, unless it does not exist on this platform.
pub fn only_available(kind: Option<PluginKind>, on_windows: bool) -> (r: Option<PluginKind>)
    ensures
        r == available(kind, on_windows),
{
    match kind {
        Some(PluginKind::AssettoCompetizione) => if on_windows {
            kind
        } else {
            None
        },
        _ => kind,
    }
}

/// The identifiers of the listed providers.
pub open spec fn listed_ids() -> Seq<Seq<char>> {
    seq!["assetto_competizione"@, "ams2"@, "iracing"@, "f1"@, "mock"@]
}

/// The display names of the listed providers.
pub open spec fn listed_names() -> Seq<Seq<char>> {
    seq![
        "Assetto Corsa Competizione"@,
        "Automobilista 2"@,
        "iRacing"@,
        "EA SPORTS F1 (UDP 2025/2026)"@,
        "Mock (Simulated Data)"@,
    ]
}

/// The identifiers and display names of all providers.
fn all_entries() -> (r: [(&'static str, &'static str); 5])
    ensures
        forall|i: int|
            0 <= i < 5 ==> (#[trigger] r@[i]).0@ == listed_ids()[i] && r@[i].1@ == listed_names()[i],
{
    [
        ("assetto_competizione", "Assetto Corsa Competizione"),
        ("ams2", "Automobilista 2"),
        ("iracing", "iRacing"),
        ("f1", "EA SPORTS F1 (UDP 2025/2026)"),
        ("mock", "Mock (Simulated Data)"),
    ]
}

/// How many of the listed providers do not exist on this platform: Assetto
/// Corsa Competizione, which comes first, only ships on Windows.
pub open spec fn left_out(on_windows: bool) -> int {
    if on_windows {
        0
    } else {
        1
    }
}

/// The identifiers of the providers that exist on this platform.
pub open spec fn platform_ids(on_windows: bool) -> Seq<Seq<char>> {
    listed_ids().skip(left_out(on_windows))
}

/// The display names of the providers that exist on this platform.
pub open spec fn platform_names(on_windows: bool) -> Seq<Seq<char>> {
    listed_names().skip(left_out(on_windows))
}

/// The identifiers and display names of the providers that exist on this
/// platform.
///
/// Assetto Corsa Competizione only ships on Windows; the mock entry is always
/// present.
pub fn plugin_entries(on_windows: bool) -> (r: Vec<(&'static str, &'static str)>)
    ensures
        r@.len() == platform_ids(on_windows).len(),
        forall|i: int|
            0 <= i < r@.len() ==> (#[trigger] r@[i]).0@ == platform_ids(on_windows)[i] && r@[i].1@ == platform_names(
                on_windows,
            )[i],
{
    let entries = all_entries();
    let mut found: Vec<(&'static str, &'static str)> = Vec::new();
    let first: usize = if on_windows {
        0
    } else {
        1
    };
    let mut i: usize = first;
    while i < 5
        invariant
            first == left_out(on_windows),
            first <= i <= 5,
            found@.len() == i - first,
            forall|j: int|
                0 <= j < 5 ==> (#[trigger] entries@[j]).0@ == listed_ids()[j] && entries@[j].1@ == listed_names()[j],
            forall|j: int| 0 <= j < found@.len() ==> #[trigger] found@[j] == entries@[j + first],
        decreases 5 - i,
    {
        found.push(entries[i]);
        i = i + 1;
    }
    found
}

/// The display name of a listed provider; another identifier is shown itself.
pub open spec fn display_name(id: Seq<char>) -> Seq<char> {
    if id == "assetto_competizione"@ {
        "Assetto Corsa Competizione"@
    } else if id == "ams2"@ {
        "Automobilista 2"@
    } else if id == "iracing"@ {
        "iRacing"@
    } else if id == "f1"@ {
        "EA SPORTS F1 (UDP 2025/2026)"@
    } else if id == "mock"@ {
        "Mock (Simulated Data)"@
    } else {
        id
    }
}

/// The display name of a listed provider; another identifier is shown itself.
pub fn plugin_display_name(id: &str) -> (r: &str)
    ensures
        r@ == display_name(id@),
{
    let entries = all_entries();
    let mut i: usize = 0;
    while i < 5
        invariant
            i <= 5,
            forall|j: int|
                0 <= j < 5 ==> (#[trigger] entries@[j]).0@ == listed_ids()[j] && entries@[j].1@ == listed_names()[j],
            forall|j: int| 0 <= j < i ==> listed_ids()[j] != id@,
        decreases 5 - i,
    {
        let entry = entries[i];
        if same_text(entry.0, id) {
            proof {
                assert(entries@[i as int] == entry);
                lemma_ids_are_distinct();
            }
            return entry.1;
        }
        i = i + 1;
    }
    proof {
        assert(listed_ids()[0] != id@ && listed_ids()[1] != id@ && listed_ids()[2] != id@ && listed_ids()[3] != id@
            && listed_ids()[4] != id@);
    }
    id
}

pub(crate) proof fn lemma_known_names()
    ensures
        "assetto_competizione"@.len() == 20,
        "assetto corsa competizione"@.len() == 26,
        "acc"@.len() == 3,
        "ams2"@.len() == 4,
        "automobilista 2"@.len() == 15,
        "automobilista2"@.len() == 14,
        "iracing"@.len() == 7,
        "iracing_sdk"@.len() == 11,
        "f1"@.len() == 2,
        "f1_25"@.len() == 5,
        "f1 25"@.len() == 5,
        "f1 2026"@.len() == 7,
        "mock"@.len() == 4,
        "test"@.len() == 4,
        "ams2"@[0] == 'a',
        "mock"@[0] == 'm',
        "test"@[0] == 't',
        "iracing"@[0] == 'i',
        "f1 2026"@[0] == 'f',
{
    reveal_strlit("assetto_competizione");
    reveal_strlit("assetto corsa competizione");
    reveal_strlit("acc");
    reveal_strlit("ams2");
    reveal_strlit("automobilista 2");
    reveal_strlit("automobilista2");
    reveal_strlit("iracing");
    reveal_strlit("iracing_sdk");
    reveal_strlit("f1");
    reveal_strlit("f1_25");
    reveal_strlit("f1 25");
    reveal_strlit("f1 2026");
    reveal_strlit("mock");
    reveal_strlit("test");
}

proof fn lemma_ids_are_distinct()
    ensures
        forall|i: int, j: int|
            0 <= i < j < 5 ==> #[trigger] listed_ids()[i] != #[trigger] listed_ids()[j],
{
    lemma_known_names();
}

/// Whether the selected provider is the F1 one.
pub fn is_f1_plugin(plugin: &str) -> (r: bool)
    ensures
        r == (plugin@ == "f1"@ || plugin@ == "f1_25"@),
{
    same_text(plugin, "f1") || same_text(plugin, "f1_25")
}

/// Every provider listed for a platform can be created there and is shown
/// under its own name, no two of them are the same, and the mock is always
/// among them.
pub proof fn law_listed_providers_exist(on_windows: bool, i: int, j: int)
    requires
        0 <= i < platform_ids(on_windows).len(),
        0 <= j < platform_ids(on_windows).len(),
    ensures
        available(kind_named(platform_ids(on_windows)[i]), on_windows) is Some,
        kind_named(platform_ids(on_windows)[i]) == kind_named(platform_ids(on_windows)[j]) ==> i == j,
        display_name(platform_ids(on_windows)[i]) == platform_names(on_windows)[i],
        platform_ids(on_windows).last() == "mock"@,
{
    lemma_known_names();
    let (a, b) = (i + left_out(on_windows), j + left_out(on_windows));
    assert(platform_ids(on_windows)[i] == listed_ids()[a]);
    assert(platform_ids(on_windows)[j] == listed_ids()[b]);
    assert(platform_names(on_windows)[i] == listed_names()[a]);
}

/// Every provider that exists on a platform is listed for it.
pub proof fn law_existing_providers_are_listed(on_windows: bool, kind: PluginKind) -> (i: int)
    requires
        available(Some(kind), on_windows) is Some,
    ensures
        0 <= i < platform_ids(on_windows).len(),
        kind_named(platform_ids(on_windows)[i]) == Some(kind),
{
    lemma_known_names();
    let place: int = match kind {
        PluginKind::AssettoCompetizione => 0,
        PluginKind::Ams2 => 1,
        PluginKind::Iracing => 2,
        PluginKind::F1 => 3,
        PluginKind::Mock => 4,
    };
    let i = place - left_out(on_windows);
    assert(platform_ids(on_windows)[i] == listed_ids()[place]);
    i
}

/// A name that the F1 settings apply to stands for the F1 provider.
pub proof fn law_f1_names_stand_for_f1(plugin: Seq<char>)
    requires
        plugin == "f1"@ || plugin == "f1_25"@,
    ensures
        kind_named(plugin) == Some(PluginKind::F1),
{
    lemma_known_names();
}

/// A trimmed text neither starts nor ends with whitespace, so trimming it again
/// changes nothing.
pub proof fn law_trimming_is_final(text: Seq<char>)
    ensures
        trimmed(text).len() > 0 ==> !white_space(trimmed(text).first()) && !white_space(trimmed(text).last()),
        trimmed(trimmed(text)) == trimmed(text),
    decreases text.len(),
{
    if text.len() > 0 {
        if white_space(text.first()) {
            law_trimming_is_final(text.drop_first());
        } else if white_space(text.last()) {
            law_trimming_is_final(text.drop_last());
        }
    }
}

/// A name stands for the same provider whatever its capitals.
pub proof fn law_capitals_do_not_matter(name: Seq<char>, other: Seq<char>)
    requires
        name.len() == other.len(),
        forall|i: int| 0 <= i < name.len() ==> ascii_lower_char(#[trigger] name[i]) == ascii_lower_char(other[i]),
    ensures
        kind_named(ascii_lower(name)) == kind_named(ascii_lower(other)),
{
    assert(ascii_lower(name) =~= ascii_lower(other));
}

} // verus!
