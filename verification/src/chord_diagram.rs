//! The state logic of the interactive chord diagram: the neck position,
//! the per-string top toggles and the mapping between a fingering and the
//! diagram's controls.

use vstd::prelude::*;
use crate::chord_ops::{adjust_chord, adjusted_fret, lowest_fingered_fret, lowest_fingered_fret_spec};

verus! {

/// Number of strings of the guitar.
pub const STRINGS: usize = 6;

/// Number of frets that the diagram shows.
pub const FRETS: usize = 5;

/// A step of the neck-position spin button.
pub enum SpinMessage {
    Increment,
    Decrement,
}

/// Whether the diagram is drawn for a right- or a left-handed player.
#[derive(Clone, Copy, Debug, PartialEq, Eq, Structural)]
pub enum GuitarType {
    RightHanded,
    LeftHanded,
}

/// The state of the toggle above a string: not open (a fret is pressed),
/// played open, or muted.
#[derive(Default, Clone, Copy, Debug, PartialEq, Eq, Structural)]
pub enum TopToggleState {
    #[default]
    Off,
    Open,
    Muted,
}

/// The change of neck position that a spin message asks for.
pub open spec fn spin_change(message: SpinMessage) -> int {
    match message {
        SpinMessage::Increment => 1,
        SpinMessage::Decrement => -1,
    }
}

/// Whether the fingering presses no string: each one is open or muted.
pub open spec fn only_open_or_muted(c: Seq<Option<usize>>) -> bool {
    forall|i: int| 0 <= i < c.len() ==> (#[trigger] c[i] matches Some(n) ==> n == 0)
}

/// A fret moved by `change` frets: open and muted strings stay, a pressed
/// fret `n` becomes `((n as i32) + change) as usize`.
pub open spec fn shifted_fret(v: Option<usize>, change: int) -> Option<usize> {
    match v {
        Some(n) => Some(
            if n == 0 {
                0usize
            } else {
                ((n as i32) + change) as usize
            },
        ),
        None => None,
    }
}

/// Whether the pressed frets of `c` can be moved by `change` without an
/// `i32` overflow.
pub open spec fn shift_in_range(c: Seq<Option<usize>>, change: int) -> bool {
    forall|i: int|
        0 <= i < c.len() ==> (#[trigger] c[i] matches Some(n) ==> n == 0 || (i32::MIN <= (n as i32)
            + change <= i32::MAX))
}

/// The neck position a fingering is shown from (the first fret when no
/// string is pressed).
pub open spec fn neck_position_spec(c: Seq<Option<usize>>) -> u8 {
    match lowest_fingered_fret_spec(c) {
        Some(p) => p,
        None => 1u8,
    }
}

/// The neck position from which the diagram shows `chord`.
pub fn neck_position_for(chord: [Option<usize>; 6]) -> (r: u8)
    ensures
        r == neck_position_spec(chord@),
{
    match lowest_fingered_fret(chord) {
        Some(p) => p,
        None => 1,
    }
}

/// Whether a step of the spin button moves the fingering (some string is
/// pressed at a fret) rather than the neck position alone.
pub fn spin_moves_fingering(chord: [Option<usize>; 6]) -> (r: bool)
    ensures
        r == !only_open_or_muted(chord@),
{
    let mut all_open_or_muted = true;
    let mut i: usize = 0;
    while i < 6
        invariant
            i <= 6,
            all_open_or_muted == (forall|j: int|
                0 <= j < i ==> (#[trigger] chord@[j] matches Some(n) ==> n == 0)),
        decreases 6 - i,
    {
        if let Some(n) = chord[i] {
            if n != 0 {
                all_open_or_muted = false;
            }
        }
        i = i + 1;
    }
    !all_open_or_muted
}

/// The fingering and neck position after a step of the spin button. When
/// no string is pressed only the neck position moves (wrapping as a `u8`);
/// otherwise every pressed fret moves by one and the neck position is
/// recomputed from the moved fingering.
pub fn update_neck_position(
    chord: [Option<usize>; 6],
    neck_position: u8,
    message: SpinMessage,
) -> (r: ([Option<usize>; 6], u8))
    requires
        shift_in_range(chord@, spin_change(message)),
    ensures
        only_open_or_muted(chord@) ==> r.0 == chord && r.1 == ((neck_position as int + spin_change(
            message,
        )) as u8),
        !only_open_or_muted(chord@) ==> (forall|i: int|
            0 <= i < 6 ==> #[trigger] r.0@[i] == shifted_fret(chord@[i], spin_change(message)))
            && r.1 == neck_position_spec(r.0@),
{
    let change: i32 = match message {
        SpinMessage::Increment => 1,
        SpinMessage::Decrement => -1,
    };
    let all_open_or_muted = !spin_moves_fingering(chord);
    if all_open_or_muted {
        let new_pos = (neck_position as i32 + change) as u8;
        return (chord, new_pos);
    }
    let mut new_chord = chord;
    let mut k: usize = 0;
    while k < 6
        invariant
            k <= 6,
            change == spin_change(message),
            shift_in_range(chord@, change as int),
            forall|j: int| 0 <= j < k ==> #[trigger] new_chord@[j] == shifted_fret(chord@[j], change as int),
        decreases 6 - k,
    {
        let moved = match chord[k] {
            Some(n) => Some(
                if n == 0 {
                    0
                } else {
                    assert(chord@[k as int] matches Some(m) && m == n);
                    (n as i32 + change) as usize
                },
            ),
            None => None,
        };
        new_chord[k] = moved;
        k = k + 1;
    }
    let neck = neck_position_for(new_chord);
    (new_chord, neck)
}

/// The name of the note `input` semitones above A, with sharps written `♯`.
pub open spec fn diagram_note_name(input: int) -> Seq<char> {
    let n = input % 12;
    if n == 0 {
        "A"@
    } else if n == 1 {
        "A♯"@
    } else if n == 2 {
        "B"@
    } else if n == 3 {
        "C"@
    } else if n == 4 {
        "C♯"@
    } else if n == 5 {
        "D"@
    } else if n == 6 {
        "D♯"@
    } else if n == 7 {
        "E"@
    } else if n == 8 {
        "F"@
    } else if n == 9 {
        "F♯"@
    } else if n == 10 {
        "G"@
    } else {
        "G♯"@
    }
}

/// The name of the note `input` semitones above A (counted modulo an
/// octave), as the diagram labels strings and frets.
pub fn note_name(input: usize) -> (r: &'static str)
    ensures
        r@ == diagram_note_name(input as int),
{
    match input % 12 {
        0 => "A",
        1 => "A♯",
        2 => "B",
        3 => "C",
        4 => "C♯",
        5 => "D",
        6 => "D♯",
        7 => "E",
        8 => "F",
        9 => "F♯",
        10 => "G",
        _ => "G♯",
    }
}

/// The name of the barre picture shown for a barre of `barre_length`
/// strings (`empty` when there is no barre to draw).
pub open spec fn barre_child_name_spec(barre_length: int) -> Seq<char> {
    if barre_length == 2 {
        "barre-2"@
    } else if barre_length == 3 {
        "barre-3"@
    } else if barre_length == 4 {
        "barre-4"@
    } else if barre_length == 5 {
        "barre-5"@
    } else if barre_length == 6 {
        "barre-6"@
    } else {
        "empty"@
    }
}

/// The barre picture to show for a barre of `barre_length` strings.
pub fn barre_child_name(barre_length: usize) -> (r: &'static str)
    ensures
        r@ == barre_child_name_spec(barre_length as int),
{
    match barre_length {
        2 => "barre-2",
        3 => "barre-3",
        4 => "barre-4",
        5 => "barre-5",
        6 => "barre-6",
        _ => "empty",
    }
}

/// The variant of the pictures to use: the light pictures on a light theme
/// and, in high contrast, on a dark one; else the dark pictures.
pub fn style_suffix(is_dark: bool, is_high_contrast: bool) -> (r: &'static str)
    ensures
        r@ == (if is_dark == is_high_contrast {
            "light"@
        } else {
            "dark"@
        }),
{
    if is_dark == is_high_contrast {
        "light"
    } else {
        "dark"
    }
}

/// Lowest and highest value of the neck-position spin button.
pub const MIN_NECK_POSITION: u8 = 1;
pub const MAX_NECK_POSITION: u8 = 12;

/// Whether the spin button's increment and decrement buttons can be used at
/// `value`.
pub fn spin_buttons_sensitive(value: u8) -> (r: (bool, bool))
    ensures
        r.0 == (value < MAX_NECK_POSITION),
        r.1 == (value > MIN_NECK_POSITION),
{
    (value < MAX_NECK_POSITION, value > MIN_NECK_POSITION)
}

/// A step up and a step down of the neck position give back the fingering
/// when its pressed frets are below `i32::MAX`.
pub proof fn lemma_step_up_then_down(c: Seq<Option<usize>>)
    requires
        forall|i: int| 0 <= i < c.len() ==> (#[trigger] c[i] matches Some(n) ==> n < i32::MAX),
    ensures
        forall|i: int|
            0 <= i < c.len() ==> #[trigger] shifted_fret(shifted_fret(c[i], 1), -1) == c[i],
        shift_in_range(c, 1),
        shift_in_range(Seq::new(c.len(), |i: int| shifted_fret(c[i], 1)), -1),
        !only_open_or_muted(c) ==> !only_open_or_muted(
            Seq::new(c.len(), |i: int| shifted_fret(c[i], 1)),
        ),
{
    let up = Seq::new(c.len(), |i: int| shifted_fret(c[i], 1));
    assert forall|i: int| 0 <= i < c.len() implies (#[trigger] up[i] matches Some(n) ==> n == 0 || (
    i32::MIN <= (n as i32) - 1 <= i32::MAX)) by {
        if let Some(n) = c[i] {
            if n > 0 {
                assert((n as i32) == n);
            }
        }
    }
    if !only_open_or_muted(c) {
        let i = choose|i: int| 0 <= i < c.len() && !(#[trigger] c[i] matches Some(n) ==> n == 0);
        assert(!(up[i] matches Some(n) ==> n == 0));
    }
}

// ---------------------------------------------------------------------------
// The toggle above a string
// ---------------------------------------------------------------------------

/// The state that a click gives a toggle whose button stays pressed: open
/// and muted take turns, a toggle that is not open stays so.
pub open spec fn clicked_state(state: TopToggleState) -> TopToggleState {
    match state {
        TopToggleState::Open => TopToggleState::Muted,
        TopToggleState::Muted => TopToggleState::Open,
        TopToggleState::Off => TopToggleState::Off,
    }
}

/// The logic of the toggle above a string. Its button shares a group with
/// the fret buttons of the string, so pressing a fret releases it, and a
/// click on it while it is pressed leaves it pressed. A click on the button
/// reports `toggled` (when its pressed state changed) and then `clicked`.
pub struct TopToggle {
    /// What the toggle shows.
    pub state: TopToggleState,
    /// Whether the button is pressed.
    pub active: bool,
    /// Set while the button is changed by `set_state` itself.
    pub programmatically_toggled: bool,
    /// Set between a `toggled` and the `clicked` of the same click.
    pub recently_toggled: bool,
}

/// The toggle after its button reported that its pressed state became
/// `active`.
pub open spec fn toggled_spec(t: TopToggle, active: bool) -> TopToggle {
    if t.programmatically_toggled {
        TopToggle { active, ..t }
    } else {
        TopToggle {
            state: if active {
                TopToggleState::Open
            } else {
                TopToggleState::Off
            },
            active,
            recently_toggled: true,
            ..t
        }
    }
}

/// The toggle after its button reported a click.
pub open spec fn clicked_spec(t: TopToggle) -> TopToggle {
    TopToggle {
        state: if t.recently_toggled {
            t.state
        } else {
            clicked_state(t.state)
        },
        recently_toggled: false,
        ..t
    }
}

/// A toggle that is not open and not pressed, as `TopToggle::new` makes it.
pub open spec fn initial_toggle() -> TopToggle {
    TopToggle {
        state: TopToggleState::Off,
        active: false,
        programmatically_toggled: false,
        recently_toggled: false,
    }
}

/// The toggle after `set_state(state)`.
pub open spec fn set_state_spec(t: TopToggle, state: TopToggleState) -> TopToggle {
    TopToggle {
        state,
        active: state != TopToggleState::Off,
        programmatically_toggled: false,
        recently_toggled: false,
    }
}

/// What can happen to a toggle from outside.
pub enum ToggleEvent {
    /// The user clicks its button.
    UserClick,
    /// Another button of its group is pressed.
    GroupRelease,
    /// The diagram shows a fingering and sets the toggle's state.
    SetState(TopToggleState),
}

/// The toggle after `event`, told as the calls its button makes: a click on
/// a released button reports `toggled` and then `clicked`, a click on a
/// pressed one reports `clicked` alone, and a release by the group reports
/// `toggled` when the button was pressed and nothing otherwise.
pub open spec fn after_event(t: TopToggle, event: ToggleEvent) -> TopToggle {
    match event {
        ToggleEvent::UserClick => if t.active {
            clicked_spec(t)
        } else {
            clicked_spec(toggled_spec(t, true))
        },
        ToggleEvent::GroupRelease => if t.active {
            toggled_spec(t, false)
        } else {
            t
        },
        ToggleEvent::SetState(state) => set_state_spec(t, state),
    }
}

/// The toggle after `events`, in order.
pub open spec fn after_events(t: TopToggle, events: Seq<ToggleEvent>) -> TopToggle
    decreases events.len(),
{
    if events.len() == 0 {
        t
    } else {
        after_event(after_events(t, events.drop_last()), events.last())
    }
}

impl TopToggle {
    /// A toggle at rest between events: no `set_state` is under way, the
    /// button is pressed exactly when the string is open or muted, and a
    /// pressed button has no half-handled click.
    pub open spec fn settled(self) -> bool {
        &&& !self.programmatically_toggled
        &&& self.active == (self.state != TopToggleState::Off)
        &&& self.state != TopToggleState::Off ==> !self.recently_toggled
    }

    /// A toggle that is not open and not pressed.
    pub fn new() -> (r: Self)
        ensures
            r.state == TopToggleState::Off,
            !r.active,
            !r.programmatically_toggled,
            !r.recently_toggled,
            r.settled(),
            r == initial_toggle(),
    {
        TopToggle {
            state: TopToggleState::Off,
            active: false,
            programmatically_toggled: false,
            recently_toggled: false,
        }
    }

    /// Shows `state`: the button is pressed unless the state is `Off`, and
    /// the change of the button is not taken for a user's toggle.
    pub fn set_state(&mut self, state: TopToggleState)
        ensures
            final(self).state == state,
            final(self).active == (state != TopToggleState::Off),
            !final(self).programmatically_toggled,
            !final(self).recently_toggled,
            final(self).settled(),
            *final(self) == set_state_spec(*old(self), state),
    {
        self.programmatically_toggled = true;
        self.active = match state {
            TopToggleState::Off => false,
            TopToggleState::Open | TopToggleState::Muted => true,
        };
        self.programmatically_toggled = false;
        self.state = state;
        self.recently_toggled = false;
    }

    /// The state shown.
    pub fn state(&self) -> (r: TopToggleState)
        ensures
            r == self.state,
    {
        self.state
    }

    /// The button's pressed state changed to `active`: unless `set_state`
    /// caused it, a pressed button shows the string open and a released one
    /// shows it not open.
    pub fn on_toggled(&mut self, active: bool)
        ensures
            final(self).active == active,
            final(self).programmatically_toggled == old(self).programmatically_toggled,
            old(self).programmatically_toggled ==> final(self).state == old(self).state
                && final(self).recently_toggled == old(self).recently_toggled,
            !old(self).programmatically_toggled ==> final(self).state == (if active {
                TopToggleState::Open
            } else {
                TopToggleState::Off
            }) && final(self).recently_toggled,
            *final(self) == toggled_spec(*old(self), active),
    {
        self.active = active;
        if !self.programmatically_toggled {
            if self.active {
                self.state = TopToggleState::Open;
            } else {
                self.state = TopToggleState::Off;
            }
            self.recently_toggled = true;
        }
    }

    /// The button was clicked: unless the click just toggled the button, the
    /// state moves on as `clicked_state` says.
    pub fn on_clicked(&mut self)
        ensures
            final(self).state == (if old(self).recently_toggled {
                old(self).state
            } else {
                clicked_state(old(self).state)
            }),
            final(self).active == old(self).active,
            final(self).programmatically_toggled == old(self).programmatically_toggled,
            !final(self).recently_toggled,
            *final(self) == clicked_spec(*old(self)),
    {
        if !self.recently_toggled {
            self.state = match self.state {
                TopToggleState::Open => TopToggleState::Muted,
                TopToggleState::Muted => TopToggleState::Open,
                TopToggleState::Off => TopToggleState::Off,
            };
        }
        self.recently_toggled = false;
    }
}

/// The name of the icon that the toggle shows for `state`.
pub fn icon_child_name(state: TopToggleState) -> (r: &'static str)
    ensures
        r@ == (match state {
            TopToggleState::Off => "off"@,
            TopToggleState::Open => "open"@,
            TopToggleState::Muted => "muted"@,
        }),
{
    match state {
        TopToggleState::Off => "off",
        TopToggleState::Open => "open",
        TopToggleState::Muted => "muted",
    }
}

/// The events that reach a settled toggle. A user's click on a released
/// button first presses it (`toggled`) and then reports the click; a click
/// on a pressed button reports the click alone; another button of the group
/// releases it (`toggled` alone). So a click moves `Off` to `Open`, `Open`
/// to `Muted` and `Muted` to `Open`, a release by the group moves it to
/// `Off`, and after each the toggle is settled again.
pub proof fn lemma_click_cycle(t: TopToggle)
    requires
        t.settled(),
    ensures
        ({
            let after = if t.active {
                clicked_spec(t)
            } else {
                clicked_spec(toggled_spec(t, true))
            };
            &&& after.state == match t.state {
                TopToggleState::Off => TopToggleState::Open,
                TopToggleState::Open => TopToggleState::Muted,
                TopToggleState::Muted => TopToggleState::Open,
            }
            &&& !after.recently_toggled
            &&& after.settled()
        }),
        t.active ==> toggled_spec(t, false).state == TopToggleState::Off,
        t.active ==> toggled_spec(t, false).settled(),
{
}

/// Every event keeps a toggle settled, so every toggle that events can make
/// from a new one is settled, and `lemma_click_cycle` applies to it.
pub proof fn lemma_reachable_settled(t: TopToggle, events: Seq<ToggleEvent>)
    requires
        t.settled(),
    ensures
        after_events(t, events).settled(),
        after_events(initial_toggle(), events).settled(),
    decreases events.len(),
{
    if events.len() > 0 {
        lemma_reachable_settled(t, events.drop_last());
        let before = after_events(t, events.drop_last());
        let before_new = after_events(initial_toggle(), events.drop_last());
        lemma_click_cycle(before);
        lemma_click_cycle(before_new);
    }
}

/// A click on a toggle that is open or muted turns it muted or open, and
/// a second click brings it back.
pub proof fn lemma_click_twice(state: TopToggleState)
    ensures
        clicked_state(clicked_state(state)) == state,
        (state == TopToggleState::Open) == (clicked_state(state) == TopToggleState::Muted),
{
}

// ---------------------------------------------------------------------------
// Fingering and controls
// ---------------------------------------------------------------------------

/// The column of the diagram in which string `i` (0 is the lowest) is drawn.
pub open spec fn column_of(i: int, guitar_type: GuitarType) -> int {
    match guitar_type {
        GuitarType::RightHanded => i,
        GuitarType::LeftHanded => 5 - i,
    }
}

fn column_for(i: usize, guitar_type: GuitarType) -> (r: usize)
    requires
        i < 6,
    ensures
        r == column_of(i as int, guitar_type),
        r < 6,
{
    match guitar_type {
        GuitarType::RightHanded => i,
        GuitarType::LeftHanded => 5 - i,
    }
}

/// The controls of the diagram, column by column: the state of the top
/// toggle and which fret button (0 for the first shown fret) is pressed.
pub struct DiagramControls {
    pub states: [TopToggleState; 6],
    pub pressed: [Option<usize>; 6],
}

/// Whether the controls describe a fingering: every column whose top toggle
/// is not open has a pressed fret button among the five shown.
pub open spec fn controls_complete(controls: DiagramControls) -> bool {
    forall|col: int|
        0 <= col < 6 ==> (#[trigger] controls.states@[col] == TopToggleState::Off ==> (
        controls.pressed@[col] matches Some(k) && k < 5))
}

/// The fret that a column's controls give string `i` at neck position
/// `neck`: muted, open, or the pressed button's fret above the neck position.
pub open spec fn string_from_controls(
    controls: DiagramControls,
    i: int,
    neck: u8,
    guitar_type: GuitarType,
) -> Option<usize> {
    let col = column_of(i, guitar_type);
    match controls.states@[col] {
        TopToggleState::Muted => None,
        TopToggleState::Open => Some(0usize),
        TopToggleState::Off => Some((controls.pressed@[col]->0 + neck) as usize),
    }
}

/// The fingering that the diagram's controls show at neck position `neck`.
pub fn chord_from_controls(
    controls: &DiagramControls,
    neck: u8,
    guitar_type: GuitarType,
) -> (r: [Option<usize>; 6])
    requires
        controls_complete(*controls),
    ensures
        forall|i: int|
            0 <= i < 6 ==> #[trigger] r@[i] == string_from_controls(*controls, i, neck, guitar_type),
{
    let mut chord: [Option<usize>; 6] = [None, None, None, None, None, None];
    let mut i: usize = 0;
    while i < 6
        invariant
            i <= 6,
            controls_complete(*controls),
            forall|j: int|
                0 <= j < i ==> #[trigger] chord@[j] == string_from_controls(
                    *controls,
                    j,
                    neck,
                    guitar_type,
                ),
        decreases 6 - i,
    {
        let col = column_for(i, guitar_type);
        let value = match controls.states[col] {
            TopToggleState::Muted => None,
            TopToggleState::Open => Some(0),
            TopToggleState::Off => {
                assert(controls.states@[col as int] == TopToggleState::Off);
                let k = match controls.pressed[col] {
                    Some(k) => k,
                    None => 0,
                };
                Some(k + neck as usize)
            },
        };
        chord[i] = value;
        i = i + 1;
    }
    chord
}

/// The controls of column `col` that show string value `v` (already moved
/// to the neck position): a muted string, an open one, a pressed fret among
/// the five shown, or muted when the fret lies beyond them.
pub open spec fn column_state(v: Option<usize>) -> TopToggleState {
    match v {
        None => TopToggleState::Muted,
        Some(n) => if n == 0 {
            TopToggleState::Open
        } else if n <= 5 {
            TopToggleState::Off
        } else {
            TopToggleState::Muted
        },
    }
}

/// The fret button pressed for string value `v` (already moved to the neck
/// position), if any.
pub open spec fn column_pressed(v: Option<usize>) -> Option<usize> {
    match v {
        Some(n) => if 1 <= n <= 5 {
            Some((n - 1) as usize)
        } else {
            None
        },
        None => None,
    }
}

/// Whether `chord` can be drawn from neck position `neck`: no pressed fret
/// lies below the first fret shown.
pub open spec fn drawable_from(chord: Seq<Option<usize>>, neck: u8) -> bool {
    forall|i: int|
        0 <= i < 6 ==> (#[trigger] chord[i] matches Some(n) ==> n == 0 || n >= (if neck == 0 {
            0
        } else {
            neck - 1
        }))
}

/// The controls that show `chord` from neck position `neck`.
pub fn controls_from_chord(
    chord: [Option<usize>; 6],
    neck: u8,
    guitar_type: GuitarType,
) -> (r: DiagramControls)
    requires
        drawable_from(chord@, neck),
    ensures
        forall|i: int|
            0 <= i < 6 ==> #[trigger] r.states@[column_of(i, guitar_type)] == column_state(
                adjusted_fret(chord@[i], neck),
            ) && r.pressed@[column_of(i, guitar_type)] == column_pressed(
                adjusted_fret(chord@[i], neck),
            ),
{
    let adjusted = adjust_chord(chord, neck);
    let mut states: [TopToggleState; 6] = [
        TopToggleState::Off,
        TopToggleState::Off,
        TopToggleState::Off,
        TopToggleState::Off,
        TopToggleState::Off,
        TopToggleState::Off,
    ];
    let mut pressed: [Option<usize>; 6] = [None, None, None, None, None, None];
    let mut i: usize = 0;
    while i < 6
        invariant
            i <= 6,
            forall|j: int| 0 <= j < 6 ==> #[trigger] adjusted@[j] == adjusted_fret(chord@[j], neck),
            forall|j: int|
                0 <= j < i ==> #[trigger] states@[column_of(j, guitar_type)] == column_state(
                    adjusted@[j],
                ) && pressed@[column_of(j, guitar_type)] == column_pressed(adjusted@[j]),
        decreases 6 - i,
    {
        let col = column_for(i, guitar_type);
        let (state, button) = match adjusted[i] {
            None => (TopToggleState::Muted, None),
            Some(n) => {
                if n == 0 {
                    (TopToggleState::Open, None)
                } else if n <= 5 {
                    (TopToggleState::Off, Some(n - 1))
                } else {
                    (TopToggleState::Muted, None)
                }
            },
        };
        states[col] = state;
        pressed[col] = button;
        i = i + 1;
    }
    DiagramControls { states, pressed }
}

/// Whether every pressed fret of `chord` lies among the five frets shown
/// from neck position `neck`.
pub open spec fn within_view(chord: Seq<Option<usize>>, neck: u8) -> bool {
    forall|i: int|
        0 <= i < 6 ==> (#[trigger] chord[i] matches Some(n) ==> n == 0 || (neck <= n && n < neck
            + 5))
}

/// What the diagram shows is what it reads back: drawing a fingering whose
/// pressed frets all lie in view, from a neck position of at least 1, gives
/// controls that describe exactly that fingering.
pub proof fn lemma_controls_round_trip(
    chord: Seq<Option<usize>>,
    controls: DiagramControls,
    neck: u8,
    guitar_type: GuitarType,
)
    requires
        chord.len() == 6,
        neck >= 1,
        within_view(chord, neck),
        forall|i: int|
            0 <= i < 6 ==> #[trigger] controls.states@[column_of(i, guitar_type)] == column_state(
                adjusted_fret(chord[i], neck),
            ) && controls.pressed@[column_of(i, guitar_type)] == column_pressed(
                adjusted_fret(chord[i], neck),
            ),
    ensures
        controls_complete(controls),
        forall|i: int|
            0 <= i < 6 ==> #[trigger] string_from_controls(controls, i, neck, guitar_type)
                == chord[i],
{
    assert forall|col: int|
        0 <= col < 6 && #[trigger] controls.states@[col] == TopToggleState::Off implies (
        controls.pressed@[col] matches Some(k) && k < 5) by {
        let i = match guitar_type {
            GuitarType::RightHanded => col,
            GuitarType::LeftHanded => 5 - col,
        };
        assert(column_of(i, guitar_type) == col);
        assert(controls.states@[column_of(i, guitar_type)] == column_state(
            adjusted_fret(chord[i], neck),
        ));
    }
    assert forall|i: int| 0 <= i < 6 implies #[trigger] string_from_controls(
        controls,
        i,
        neck,
        guitar_type,
    ) == chord[i] by {
        assert(controls.states@[column_of(i, guitar_type)] == column_state(
            adjusted_fret(chord[i], neck),
        ));
    }
}

} // verus!
