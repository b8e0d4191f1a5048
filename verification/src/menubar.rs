//! The menubar's status display: a coloured dot icon and a status line
//! that show whether capture is recording or paused.
use vstd::prelude::*;

verus! {

broadcast use vstd::string::group_string_axioms;

/// The application name shown in the menubar.
pub const APP_NAME: &'static str = "secondbrain";

/// Width and height of the status icon, in pixels.
pub const ICON_SIZE: u32 = 16;

/// The dot's colour: green while recording, grey while paused.
pub open spec fn status_rgb(recording: bool) -> (u8, u8, u8) {
    if recording {
        (76, 175, 80)
    } else {
        (158, 158, 158)
    }
}

/// Whether pixel (x, y) of the icon lies in the dot: its centre is within
/// 6 pixels (half the icon less 2) of the icon's centre (8, 8). In
/// half-pixel units this is `(2x + 1 - 16)^2 + (2y + 1 - 16)^2 <= 12^2`.
pub open spec fn in_status_dot(x: int, y: int) -> bool {
    let dx = 2 * x + 1 - 16;
    let dy = 2 * y + 1 - 16;
    dx * dx + dy * dy <= 144
}

/// Byte `i` of the icon's RGBA buffer, laid out row by row with four bytes
/// per pixel: the dot's colour, opaque, inside the dot; transparent black
/// outside it.
pub open spec fn icon_byte(recording: bool, i: int) -> u8 {
    let p = i / 4;
    let c = i % 4;
    let x = p % 16;
    let y = p / 16;
    if in_status_dot(x, y) {
        if c == 0 {
            status_rgb(recording).0
        } else if c == 1 {
            status_rgb(recording).1
        } else if c == 2 {
            status_rgb(recording).2
        } else {
            255
        }
    } else {
        0
    }
}

/// The RGBA pixels of the 16x16 status icon.
pub fn status_icon_rgba(recording: bool) -> (rgba: Vec<u8>)
    ensures
        rgba@.len() == 16 * 16 * 4,
        forall|i: int| 0 <= i < 16 * 16 * 4 ==> #[trigger] rgba@[i] == icon_byte(recording, i),
{
    let (r, g, b): (u8, u8, u8) = if recording {
        (76, 175, 80)
    } else {
        (158, 158, 158)
    };
    let total: usize = 16 * 16 * 4;
    let mut rgba: Vec<u8> = Vec::new();
    let mut i: usize = 0;
    while i < total
        invariant
            total == 16 * 16 * 4,
            i <= total,
            rgba@.len() == i,
            (r, g, b) == status_rgb(recording),
            forall|k: int| 0 <= k < i ==> #[trigger] rgba@[k] == icon_byte(recording, k),
        decreases total - i,
    {
        let p = i / 4;
        let c = i % 4;
        let x = (p % 16) as i32;
        let y = (p / 16) as i32;
        let dx: i32 = 2 * x + 1 - 16;
        let dy: i32 = 2 * y + 1 - 16;
        assert(-16 <= dx <= 16 && -16 <= dy <= 16);
        assert(0 <= dx * dx <= 256 && 0 <= dy * dy <= 256) by (nonlinear_arith)
            requires
                -16 <= dx <= 16,
                -16 <= dy <= 16,
        ;
        let inside = dx * dx + dy * dy <= 144;
        let v: u8 = if inside {
            if c == 0 {
                r
            } else if c == 1 {
                g
            } else if c == 2 {
                b
            } else {
                255
            }
        } else {
            0
        };
        assert(v == icon_byte(recording, i as int));
        rgba.push(v);
        i = i + 1;
    }
    rgba
}

/// The status line: `secondbrain — recording` or `secondbrain — paused`.
pub open spec fn status_line(recording: bool) -> Seq<char> {
    if recording {
        APP_NAME@ + " — recording"@
    } else {
        APP_NAME@ + " — paused"@
    }
}

/// The status line shown in the tooltip and the menu.
pub fn status_text(recording: bool) -> (s: String)
    ensures
        s@ == status_line(recording),
{
    if recording {
        String::from_str(APP_NAME).concat(" — recording")
    } else {
        String::from_str(APP_NAME).concat(" — paused")
    }
}


/// An item chosen in the menubar's menu.
#[derive(Debug, Clone, Copy)]
pub enum MenuCommand {
    Pause,
    Resume,
    OpenDataFolder,
    Quit,
}

/// What follows a menu choice: whether capture records from now on, and
/// whether to open the data folder or to quit.
#[derive(Debug, Clone, Copy)]
pub struct MenuOutcome {
    pub recording: bool,
    pub open_data_folder: bool,
    pub quit: bool,
}

/// The menubar's answer to a menu choice made while capture is `recording`
/// or paused: Pause and Resume set the recording switch; Open data folder
/// and Quit leave it as it is.
pub fn apply_menu_command(recording: bool, command: MenuCommand) -> (out: MenuOutcome)
    ensures
        out.recording == (match command {
            MenuCommand::Pause => false,
            MenuCommand::Resume => true,
            _ => recording,
        }),
        out.open_data_folder == (command is OpenDataFolder),
        out.quit == (command is Quit),
{
    match command {
        MenuCommand::Pause => MenuOutcome { recording: false, open_data_folder: false, quit: false },
        MenuCommand::Resume => MenuOutcome { recording: true, open_data_folder: false, quit: false },
        MenuCommand::OpenDataFolder => MenuOutcome { recording, open_data_folder: true, quit: false },
        MenuCommand::Quit => MenuOutcome { recording, open_data_folder: false, quit: true },
    }
}

} // verus!
