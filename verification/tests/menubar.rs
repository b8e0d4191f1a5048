use secondbrain::menubar::{apply_menu_command, status_icon_rgba, status_text, MenuCommand, ICON_SIZE};

/// The icon as the float rasterisation draws it.
fn float_icon(recording: bool) -> Vec<u8> {
    let size = 16u32;
    let mut rgba = vec![0u8; (size * size * 4) as usize];
    let (r, g, b) = if recording { (76, 175, 80) } else { (158, 158, 158) };
    let cx = size as f32 / 2.0;
    let radius = (size as f32 / 2.0) - 2.0;
    for y in 0..size {
        for x in 0..size {
            let dx = x as f32 + 0.5 - cx;
            let dy = y as f32 + 0.5 - cx;
            let dist = (dx * dx + dy * dy).sqrt();
            let i = ((y * size + x) * 4) as usize;
            if dist <= radius {
                rgba[i] = r;
                rgba[i + 1] = g;
                rgba[i + 2] = b;
                rgba[i + 3] = 255;
            }
        }
    }
    rgba
}

#[test]
fn icon_matches_float_rasterisation() {
    assert_eq!(ICON_SIZE, 16);
    assert_eq!(status_icon_rgba(true).len(), 16 * 16 * 4);
    assert_eq!(status_icon_rgba(true), float_icon(true));
    assert_eq!(status_icon_rgba(false), float_icon(false));
}

#[test]
fn icon_colours() {
    let on = status_icon_rgba(true);
    let centre = ((8 * 16 + 8) * 4) as usize;
    assert_eq!(&on[centre..centre + 4], &[76, 175, 80, 255]);
    assert_eq!(&on[0..4], &[0, 0, 0, 0]);
    let off = status_icon_rgba(false);
    assert_eq!(&off[centre..centre + 4], &[158, 158, 158, 255]);
}

#[test]
fn status_lines() {
    assert_eq!(status_text(true), "secondbrain — recording");
    assert_eq!(status_text(false), "secondbrain — paused");
}

#[test]
fn menu_commands() {
    let out = apply_menu_command(true, MenuCommand::Pause);
    assert!(!out.recording && !out.open_data_folder && !out.quit);
    let out = apply_menu_command(false, MenuCommand::Resume);
    assert!(out.recording && !out.open_data_folder && !out.quit);
    let out = apply_menu_command(false, MenuCommand::OpenDataFolder);
    assert!(!out.recording && out.open_data_folder && !out.quit);
    let out = apply_menu_command(true, MenuCommand::Quit);
    assert!(out.recording && !out.open_data_folder && out.quit);
}
