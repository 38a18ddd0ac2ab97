//! What the settings panel shows.
use crate::binary32::{num, number, Binary32, ONE_BITS};
use crate::plugins::is_f1_plugin;
use crate::renderer::color::{opaque, rgb, saturated, Color};
use crate::renderer::overlay::FULL_ALPHA_BITS;
use crate::text::{decimal, decimal_text};
use crate::time::{elapsed_between, in_seconds, Instant};
use vstd::prelude::*;
use vstd::string::*;

verus! {

/// Bit pattern of 2: seconds for which the note of a save is shown.
pub const NOTE_SECONDS_BITS: u32 = 0x4000_0000;

/// Bit pattern of 1.5: when the note of a save starts to fade.
pub const NOTE_FADE_START_BITS: u32 = 0x3fc0_0000;

/// Bit pattern of 0.5: how long the note of a save fades.
pub const NOTE_FADE_BITS: u32 = 0x3f00_0000;

/// The state of the connection, as the settings show it.
#[derive(Debug, Clone, Copy, PartialEq, Eq, Structural)]
pub enum ConnectionStatus {
    Stopped,
    Live,
    Connecting,
}

impl ConnectionStatus {
    /// The state for a running overlay with or without recent data.
    pub fn of(running: bool, live: bool) -> (r: Self)
        ensures
            r == (if !running {
                ConnectionStatus::Stopped
            } else if live {
                ConnectionStatus::Live
            } else {
                ConnectionStatus::Connecting
            }),
    {
        if !running {
            ConnectionStatus::Stopped
        } else if live {
            ConnectionStatus::Live
        } else {
            ConnectionStatus::Connecting
        }
    }

    /// The text for the state.
    pub fn text(self) -> (r: &'static str)
        ensures
            r@ == (match self {
                ConnectionStatus::Stopped => "STOPPED"@,
                ConnectionStatus::Live => "LIVE"@,
                ConnectionStatus::Connecting => "CONNECTING"@,
            }),
    {
        match self {
            ConnectionStatus::Stopped => "STOPPED",
            ConnectionStatus::Live => "LIVE",
            ConnectionStatus::Connecting => "CONNECTING",
        }
    }

    /// The colour for the state.
    pub fn color(self) -> (r: Color)
        ensures
            r == (match self {
                ConnectionStatus::Stopped => opaque(60, 60, 60),
                ConnectionStatus::Live => opaque(60, 200, 80),
                ConnectionStatus::Connecting => opaque(220, 140, 40),
            }),
    {
        match self {
            ConnectionStatus::Stopped => rgb(60, 60, 60),
            ConnectionStatus::Live => rgb(60, 200, 80),
            ConnectionStatus::Connecting => rgb(220, 140, 40),
        }
    }
}

/// How strongly the note of a save is shown after a number of seconds.
pub open spec fn note_strength(elapsed: Binary32) -> Binary32 {
    if num(NOTE_FADE_START_BITS).below(elapsed) {
        num(ONE_BITS).difference(elapsed.difference(num(NOTE_FADE_START_BITS)).quotient(num(NOTE_FADE_BITS)))
    } else {
        num(ONE_BITS)
    }
}

/// The opacity of the note that the settings were saved, if it is shown. A note
/// that has been shown long enough is dropped.
pub fn save_note(saved_at: &mut Option<Instant>, now: Instant) -> (r: Option<u8>)
    ensures
        match *old(saved_at) {
            Some(saved) => {
                let elapsed = in_seconds(elapsed_between(saved@, now@));
                if elapsed.below(num(NOTE_SECONDS_BITS)) {
                    &&& r == Some(saturated(note_strength(elapsed).product(num(FULL_ALPHA_BITS)).whole_part()))
                    &&& *final(saved_at) == *old(saved_at)
                } else {
                    r is None && *final(saved_at) is None
                }
            },
            None => r is None && *final(saved_at) is None,
        },
{
    let saved = match *saved_at {
        Some(saved) => saved,
        None => return None,
    };
    let elapsed = now.saturating_duration_since(saved).as_secs_f32();
    if !elapsed.lt(number(NOTE_SECONDS_BITS)) {
        *saved_at = None;
        return None;
    }
    let start = number(NOTE_FADE_START_BITS);
    let strength = if start.lt(elapsed) {
        number(ONE_BITS).minus(elapsed.minus(start).over(number(NOTE_FADE_BITS)))
    } else {
        number(ONE_BITS)
    };
    let alpha: u64 = strength.times(number(FULL_ALPHA_BITS)).truncate_to_u64();
    if alpha > 255 {
        Some(255)
    } else {
        Some(alpha as u8)
    }
}

/// The label of the button that starts and stops.
pub fn run_label(running: bool) -> (r: &'static str)
    ensures
        r@ == if running {
            "\u{25a0}  Stop"@
        } else {
            "\u{25b6}  Start"@
        },
{
    if running {
        "\u{25a0}  Stop"
    } else {
        "\u{25b6}  Start"
    }
}

/// The label of the button that opens and closes the phase plot.
pub fn phase_plot_label(open: bool) -> (r: &'static str)
    ensures
        r@ == if open {
            "Hide phase plot"@
        } else {
            "Show phase plot"@
        },
{
    if open {
        "Hide phase plot"
    } else {
        "Show phase plot"
    }
}

/// The label of the button that opens and closes the lap comparison.
pub fn comparison_label(open: bool) -> (r: &'static str)
    ensures
        r@ == if open {
            "Hide comparison"@
        } else {
            "Show comparison"@
        },
{
    if open {
        "Hide comparison"
    } else {
        "Show comparison"
    }
}

/// The state of the reference lap as text: its number of points, if there is
/// one.
pub fn reference_status(points: Option<usize>) -> (r: String)
    ensures
        r@ == (match points {
            Some(n) => "Ref: "@ + decimal(n as nat) + " pts"@,
            None => "No reference lap"@,
        }),
{
    match points {
        Some(n) => {
            let mut text = "Ref: ".to_owned();
            text.append(decimal_text(n as u64).as_str());
            text.append(" pts");
            text
        },
        None => "No reference lap".to_owned(),
    }
}

/// Which settings the panel shows.
#[derive(Debug, Clone, Copy, PartialEq, Eq, Structural)]
pub struct PanelSections {
    /// The address and port of the F1 provider.
    pub f1_connection: bool,
    /// The F1 display can be chosen; otherwise a note says when it can.
    pub f1_display: bool,
    /// The settings for trail braking.
    pub trail_braking: bool,
}

/// Which settings the panel shows for a provider.
pub fn panel_sections(plugin: &str, show_brake: bool) -> (r: PanelSections)
    ensures
        r.f1_connection == (plugin@ == "f1"@ || plugin@ == "f1_25"@),
        r.f1_display == r.f1_connection,
        r.trail_braking == show_brake,
{
    let f1 = is_f1_plugin(plugin);
    PanelSections { f1_connection: f1, f1_display: f1, trail_braking: show_brake }
}

/// The hexadecimal digit of a number below sixteen.
pub open spec fn hex_digit(n: nat) -> char {
    if n < 10 {
        ('0' as u32 + n) as char
    } else {
        ('A' as u32 + (n - 10)) as char
    }
}

/// The two hexadecimal digits of a byte.
pub open spec fn hex_byte(n: u8) -> Seq<char> {
    seq![hex_digit((n / 16) as nat), hex_digit((n % 16) as nat)]
}

/// The code of a colour.
pub open spec fn color_code(r: u8, g: u8, b: u8) -> Seq<char> {
    "#"@ + hex_byte(r) + hex_byte(g) + hex_byte(b)
}

fn hex_digit_text(n: u8) -> (r: &'static str)
    requires
        n < 16,
    ensures
        r@ == seq![hex_digit(n as nat)],
{
    proof {
        reveal_strlit("0");
        reveal_strlit("1");
        reveal_strlit("2");
        reveal_strlit("3");
        reveal_strlit("4");
        reveal_strlit("5");
        reveal_strlit("6");
        reveal_strlit("7");
        reveal_strlit("8");
        reveal_strlit("9");
        reveal_strlit("A");
        reveal_strlit("B");
        reveal_strlit("C");
        reveal_strlit("D");
        reveal_strlit("E");
        reveal_strlit("F");
    }
    let text = match n {
        0 => "0",
        1 => "1",
        2 => "2",
        3 => "3",
        4 => "4",
        5 => "5",
        6 => "6",
        7 => "7",
        8 => "8",
        9 => "9",
        10 => "A",
        11 => "B",
        12 => "C",
        13 => "D",
        14 => "E",
        _ => "F",
    };
    assert(text@ =~= seq![hex_digit(n as nat)]);
    text
}

/// Writes the code of a colour.
pub fn color_code_text(r: u8, g: u8, b: u8) -> (code: String)
    ensures
        code@ == color_code(r, g, b),
{
    let mut code = "#".to_owned();
    code.append(hex_digit_text(r / 16));
    code.append(hex_digit_text(r % 16));
    code.append(hex_digit_text(g / 16));
    code.append(hex_digit_text(g % 16));
    code.append(hex_digit_text(b / 16));
    code.append(hex_digit_text(b % 16));
    proof {
        assert(code@ =~= color_code(r, g, b));
    }
    code
}

proof fn lemma_hex_digits_differ(m: nat, n: nat)
    requires
        m < 16,
        n < 16,
        hex_digit(m) == hex_digit(n),
    ensures
        m == n,
{
}

/// Different colours have different codes.
pub proof fn law_color_codes_are_unique(first: (u8, u8, u8), second: (u8, u8, u8))
    requires
        color_code(first.0, first.1, first.2) == color_code(second.0, second.1, second.2),
    ensures
        first == second,
{
    reveal_strlit("#");
    let a = color_code(first.0, first.1, first.2);
    let b = color_code(second.0, second.1, second.2);
    assert(a[1] == b[1] && a[2] == b[2] && a[3] == b[3] && a[4] == b[4] && a[5] == b[5] && a[6] == b[6]);
    lemma_hex_digits_differ((first.0 / 16) as nat, (second.0 / 16) as nat);
    lemma_hex_digits_differ((first.0 % 16) as nat, (second.0 % 16) as nat);
    lemma_hex_digits_differ((first.1 / 16) as nat, (second.1 / 16) as nat);
    lemma_hex_digits_differ((first.1 % 16) as nat, (second.1 % 16) as nat);
    lemma_hex_digits_differ((first.2 / 16) as nat, (second.2 / 16) as nat);
    lemma_hex_digits_differ((first.2 % 16) as nat, (second.2 % 16) as nat);
}

} // verus!
