use fretboard::chord_diagram::{
    barre_child_name, chord_from_controls, controls_from_chord, neck_position_for, note_name,
    icon_child_name, spin_buttons_sensitive, spin_moves_fingering, style_suffix, update_neck_position, GuitarType,
    SpinMessage, TopToggle, TopToggleState,
};
use fretboard::chord_preview::{preview_layout, PreviewMark};

#[test]
fn neck_moves_with_open_chord_only() {
    let open = [Some(0), None, Some(0), Some(0), None, Some(0)];
    assert_eq!(update_neck_position(open, 3, SpinMessage::Increment), (open, 4));
    assert_eq!(update_neck_position(open, 3, SpinMessage::Decrement), (open, 2));
    assert_eq!(update_neck_position(open, 0, SpinMessage::Decrement), (open, 255));
}

#[test]
fn neck_step_moves_pressed_frets() {
    let c = [None, Some(3), Some(2), Some(0), Some(1), Some(0)];
    assert_eq!(
        update_neck_position(c, 1, SpinMessage::Increment),
        ([None, Some(4), Some(3), Some(0), Some(2), Some(0)], 2)
    );
    let f = [Some(1), Some(3), Some(3), Some(2), Some(1), Some(1)];
    assert_eq!(
        update_neck_position(f, 1, SpinMessage::Decrement),
        ([Some(0), Some(2), Some(2), Some(1), Some(0), Some(0)], 1)
    );
}

#[test]
fn neck_position_of_fingerings() {
    assert_eq!(neck_position_for([None, Some(5), Some(7), Some(7), Some(6), Some(5)]), 5);
    assert_eq!(neck_position_for([None; 6]), 1);
}

#[test]
fn diagram_note_names_wrap() {
    assert_eq!(note_name(0), "A");
    assert_eq!(note_name(13), "A♯");
    assert_eq!(note_name(7 + 12 * 3), "E");
}

#[test]
fn barre_pictures_and_styles() {
    assert_eq!(barre_child_name(2), "barre-2");
    assert_eq!(barre_child_name(6), "barre-6");
    assert_eq!(barre_child_name(0), "empty");
    assert_eq!(barre_child_name(1), "empty");
    assert_eq!(style_suffix(false, false), "light");
    assert_eq!(style_suffix(true, true), "light");
    assert_eq!(style_suffix(true, false), "dark");
    assert_eq!(style_suffix(false, true), "dark");
    assert_eq!(spin_buttons_sensitive(1), (true, false));
    assert_eq!(spin_buttons_sensitive(12), (false, true));
    assert_eq!(spin_buttons_sensitive(5), (true, true));
}

#[test]
fn top_toggle_click_cycles_open_and_muted() {
    let mut toggle = TopToggle::new();
    toggle.set_state(TopToggleState::Open);
    assert!(toggle.active);
    toggle.on_clicked();
    assert_eq!(toggle.state(), TopToggleState::Muted);
    toggle.on_clicked();
    assert_eq!(toggle.state(), TopToggleState::Open);
}

#[test]
fn top_toggle_pressed_by_user_opens() {
    let mut toggle = TopToggle::new();
    toggle.on_toggled(true);
    toggle.on_clicked();
    assert_eq!(toggle.state(), TopToggleState::Open);
    toggle.on_toggled(false);
    assert_eq!(toggle.state(), TopToggleState::Off);
}

#[test]
fn top_toggle_off_ignores_click() {
    let mut toggle = TopToggle::new();
    toggle.set_state(TopToggleState::Off);
    assert!(!toggle.active);
    toggle.on_clicked();
    assert_eq!(toggle.state(), TopToggleState::Off);
}

#[test]
fn law_click_cycle_through_states() {
    // A user's click on a released button: toggled, then clicked.
    let mut toggle = TopToggle::new();
    toggle.on_toggled(true);
    toggle.on_clicked();
    assert_eq!(toggle.state(), TopToggleState::Open);
    assert!(toggle.active);
    assert!(!toggle.recently_toggled);
    // Clicks on the pressed button alternate muted and open.
    toggle.on_clicked();
    assert_eq!(toggle.state(), TopToggleState::Muted);
    assert!(!toggle.recently_toggled);
    toggle.on_clicked();
    assert_eq!(toggle.state(), TopToggleState::Open);
    toggle.on_clicked();
    assert_eq!(toggle.state(), TopToggleState::Muted);
    // Another button of the group releases it.
    toggle.on_toggled(false);
    assert_eq!(toggle.state(), TopToggleState::Off);
    assert!(!toggle.active);
    // The next click opens it again.
    toggle.on_toggled(true);
    toggle.on_clicked();
    assert_eq!(toggle.state(), TopToggleState::Open);
    assert!(!toggle.recently_toggled);
}

#[test]
fn top_toggle_set_state_is_not_a_click() {
    let mut toggle = TopToggle::new();
    toggle.set_state(TopToggleState::Muted);
    assert!(toggle.active);
    assert!(!toggle.programmatically_toggled);
    assert!(!toggle.recently_toggled);
    toggle.on_clicked();
    assert_eq!(toggle.state(), TopToggleState::Open);
}

#[test]
fn spin_moves_fingering_only_when_a_fret_is_pressed() {
    assert!(!spin_moves_fingering([None; 6]));
    assert!(!spin_moves_fingering([Some(0), None, Some(0), Some(0), None, Some(0)]));
    assert!(spin_moves_fingering([None, Some(3), Some(2), Some(0), Some(1), Some(0)]));
}

#[test]
fn law_reachable_toggles_are_settled() {
    fn settled(t: &TopToggle) -> bool {
        !t.programmatically_toggled
            && t.active == (t.state() != TopToggleState::Off)
            && (t.state() == TopToggleState::Off || !t.recently_toggled)
    }
    let mut toggle = TopToggle::new();
    assert!(settled(&toggle));
    toggle.set_state(TopToggleState::Muted);
    assert!(settled(&toggle));
    toggle.on_toggled(false); // released by the group
    assert!(settled(&toggle));
    toggle.on_toggled(true); // a user's click on the released button
    toggle.on_clicked();
    assert!(settled(&toggle));
    toggle.on_clicked(); // a click on the pressed button
    assert!(settled(&toggle));
    assert_eq!(toggle.state(), TopToggleState::Muted);
    toggle.set_state(TopToggleState::Off);
    assert!(settled(&toggle));
}

#[test]
fn top_toggle_icon_names() {
    assert_eq!(icon_child_name(TopToggleState::Off), "off");
    assert_eq!(icon_child_name(TopToggleState::Open), "open");
    assert_eq!(icon_child_name(TopToggleState::Muted), "muted");
}

#[test]
fn law_controls_round_trip() {
    let chords = [
        [None, Some(3), Some(2), Some(0), Some(1), Some(0)],
        [Some(1), Some(3), Some(3), Some(2), Some(1), Some(1)],
        [None, None, Some(0), Some(2), Some(3), Some(2)],
    ];
    for chord in chords {
        for guitar in [GuitarType::RightHanded, GuitarType::LeftHanded] {
            let controls = controls_from_chord(chord, 1, guitar);
            assert_eq!(chord_from_controls(&controls, 1, guitar), chord);
        }
    }
    let high = [None, Some(5), Some(7), Some(7), Some(6), Some(5)];
    let controls = controls_from_chord(high, 5, GuitarType::LeftHanded);
    assert_eq!(chord_from_controls(&controls, 5, GuitarType::LeftHanded), high);
}

#[test]
fn controls_for_left_hand_are_mirrored() {
    let chord = [None, Some(3), Some(2), Some(0), Some(1), Some(0)];
    let right = controls_from_chord(chord, 1, GuitarType::RightHanded);
    let left = controls_from_chord(chord, 1, GuitarType::LeftHanded);
    assert_eq!(right.states[0], TopToggleState::Muted);
    assert_eq!(left.states[5], TopToggleState::Muted);
    assert_eq!(right.pressed[1], Some(2));
    assert_eq!(left.pressed[4], Some(2));
    assert_eq!(right.states[3], TopToggleState::Open);
}

#[test]
fn frets_beyond_view_show_muted() {
    let controls = controls_from_chord([None, Some(9), None, None, None, None], 1, GuitarType::RightHanded);
    assert_eq!(controls.states[1], TopToggleState::Muted);
    assert_eq!(controls.pressed[1], None);
}

#[test]
fn preview_layouts() {
    let layout = preview_layout([None, Some(5), Some(7), Some(7), Some(6), Some(5)], GuitarType::RightHanded);
    assert_eq!(layout.neck_position, 5);
    assert_eq!(layout.marks, [PreviewMark::Muted, PreviewMark::Dot(0), PreviewMark::Dot(2), PreviewMark::Dot(2), PreviewMark::Dot(1), PreviewMark::Dot(0)]);
    assert_eq!(layout.barre_length, 5);
    let layout = preview_layout([None, Some(0), Some(2), Some(2), Some(1), Some(0)], GuitarType::LeftHanded);
    assert_eq!(layout.neck_position, 1);
    assert_eq!(layout.marks, [PreviewMark::Open, PreviewMark::Dot(0), PreviewMark::Dot(1), PreviewMark::Dot(1), PreviewMark::Open, PreviewMark::Muted]);
    assert_eq!(layout.barre_length, 0);
}

#[test]
fn law_step_up_then_down() {
    for chord in [
        [None, Some(3), Some(2), Some(0), Some(1), Some(0)],
        [Some(1), Some(3), Some(3), Some(2), Some(1), Some(1)],
        [None, Some(11), Some(13), Some(13), Some(12), Some(11)],
    ] {
        let (up, _) = update_neck_position(chord, 1, SpinMessage::Increment);
        let (down, neck) = update_neck_position(up, 2, SpinMessage::Decrement);
        assert_eq!(down, chord);
        assert_eq!(neck, neck_position_for(chord));
    }
}
