//! Decisions taken on the player's input and on the state of the tank,
//! before any of them is turned into forces, rotations or visuals.

use vstd::prelude::*;

verus! {

/// The value of a control axis driven by two opposing keys: `1` while only
/// the positive key is held, `-1` while only the negative key is held, `0`
/// while both or neither are.
pub open spec fn spec_axis(positive: bool, negative: bool) -> i8 {
    if positive && !negative {
        1
    } else if negative && !positive {
        -1i8
    } else {
        0
    }
}

/// Value of the axis driven by the two given keys.
pub fn axis_value(positive: bool, negative: bool) -> (v: i8)
    ensures
        v == spec_axis(positive, negative),
{
    match (positive, negative) {
        (true, false) => 1,
        (false, true) => -1,
        (true, true) => 0,
        (false, false) => 0,
    }
}

/// Opposing keys cancel each other, and swapping them reverses the axis.
pub proof fn law_axis_opposing_keys(positive: bool, negative: bool)
    ensures
        spec_axis(positive, negative) == -spec_axis(negative, positive),
        spec_axis(true, true) == 0,
        spec_axis(false, false) == 0,
{
}

/// The driving keys held down in one frame.
#[derive(Clone, Copy, Debug, PartialEq, Eq, Structural)]
pub struct TankKeys {
    /// W.
    pub forward: bool,
    /// S.
    pub backward: bool,
    /// A or the left arrow.
    pub left: bool,
    /// D or the right arrow.
    pub right: bool,
    /// Space: the main brake.
    pub brake: bool,
    /// Q: the left track brake.
    pub brake_left: bool,
    /// E: the right track brake.
    pub brake_right: bool,
}

/// What the held keys ask of the tank.
#[derive(Clone, Copy, Debug, PartialEq, Eq, Structural)]
pub struct TankCommand {
    /// Requested drive: `1` forward, `-1` reverse, `0` none.
    pub forward: i8,
    /// Requested turn: `1` right, `-1` left, `0` none.
    pub rotation: i8,
    /// The main brake is held.
    pub braking: bool,
    /// The left track is braked.
    pub brake_left: bool,
    /// The right track is braked.
    pub brake_right: bool,
}

/// The command that the held keys give: each pair of opposing keys drives
/// one axis, and the main brake applies both track brakes.
pub open spec fn spec_tank_command(keys: TankKeys) -> TankCommand {
    TankCommand {
        forward: spec_axis(keys.forward, keys.backward),
        rotation: spec_axis(keys.right, keys.left),
        braking: keys.brake,
        brake_left: keys.brake_left || keys.brake,
        brake_right: keys.brake_right || keys.brake,
    }
}

/// Turn the held keys into the tank's command for this frame.
pub fn read_tank_keys(keys: &TankKeys) -> (command: TankCommand)
    ensures
        command == spec_tank_command(*keys),
{
    let braking = keys.brake;
    let mut brake_left = keys.brake_left;
    let mut brake_right = keys.brake_right;
    if braking {
        brake_left = true;
        brake_right = true;
    }
    TankCommand {
        forward: axis_value(keys.forward, keys.backward),
        rotation: axis_value(keys.right, keys.left),
        braking,
        brake_left,
        brake_right,
    }
}

/// Whether the mouse cursor is confined to the window and whether it is
/// shown.
#[derive(Clone, Copy, Debug, PartialEq, Eq, Structural)]
pub struct CursorState {
    pub confined: bool,
    pub visible: bool,
}

/// Escape toggles the cursor: a confined cursor is released and shown, a
/// free cursor is confined and hidden.
pub open spec fn spec_toggle_cursor(confined: bool) -> CursorState {
    CursorState { confined: !confined, visible: confined }
}

/// The cursor state after Escape, from whether the cursor was confined.
pub fn toggle_cursor(confined: bool) -> (state: CursorState)
    ensures
        state == spec_toggle_cursor(confined),
{
    CursorState { confined: !confined, visible: confined }
}

/// Pressing Escape twice gives back the cursor state one started with
/// (a cursor is shown exactly when it is not confined).
pub proof fn law_toggle_cursor_twice(confined: bool)
    ensures
        spec_toggle_cursor(spec_toggle_cursor(confined).confined).confined == confined,
        spec_toggle_cursor(spec_toggle_cursor(confined).confined).visible == !confined,
{
}

/// Sniper mode is on while either shift key is held.
pub fn sniper_mode(shift_left: bool, shift_right: bool) -> (on: bool)
    ensures
        on == (shift_left || shift_right),
{
    shift_left || shift_right
}

// ---------------------------------------------------------------------------
// Ground contact
// ---------------------------------------------------------------------------

/// Number of `true` flags.
pub open spec fn count_true(flags: Seq<bool>) -> nat
    decreases flags.len(),
{
    if flags.len() == 0 {
        0
    } else {
        count_true(flags.drop_last()) + if flags.last() {
            1nat
        } else {
            0nat
        }
    }
}

proof fn lemma_count_true_bound(flags: Seq<bool>)
    ensures
        count_true(flags) <= flags.len(),
    decreases flags.len(),
{
    if flags.len() > 0 {
        lemma_count_true_bound(flags.drop_last());
    }
}

/// Number of suspension points that touch the ground, given the grounded
/// flag of each point.
pub fn grounded_count(grounded: &Vec<bool>) -> (n: usize)
    ensures
        n == count_true(grounded@),
{
    let mut n: usize = 0;
    let mut k: usize = 0;
    while k < grounded.len()
        invariant
            k <= grounded@.len(),
            n == count_true(grounded@.take(k as int)),
        decreases grounded@.len() - k,
    {
        proof {
            assert(grounded@.take((k + 1) as int).drop_last() =~= grounded@.take(k as int));
            lemma_count_true_bound(grounded@.take(k as int));
        }
        if grounded[k] {
            n += 1;
        }
        k += 1;
    }
    assert(grounded@.take(grounded@.len() as int) =~= grounded@);
    n
}

/// The tank has traction while at least `min_ground_contacts` of its
/// suspension points touch the ground.
pub fn has_traction(grounded: &Vec<bool>, min_ground_contacts: usize) -> (t: bool)
    ensures
        t == (count_true(grounded@) >= min_ground_contacts),
{
    grounded_count(grounded) >= min_ground_contacts
}

// ---------------------------------------------------------------------------
// Track marks
// ---------------------------------------------------------------------------

/// Whether new track marks may be laid this frame: the system is enabled,
/// fewer than `max_marks` marks exist, and the tank is moving (it counts as
/// moving unless it is flagged as stopped and also slower than the speed
/// threshold).
pub fn may_lay_track_marks(
    enabled: bool,
    mark_count: usize,
    max_marks: usize,
    is_moving: bool,
    below_speed_threshold: bool,
) -> (may: bool)
    ensures
        may == (enabled && mark_count < max_marks && (is_moving || !below_speed_threshold)),
{
    if !enabled {
        return false;
    }
    if mark_count >= max_marks {
        return false;
    }
    if !is_moving && below_speed_threshold {
        return false;
    }
    true
}

/// An axis is `1` exactly when only its positive key is held, `-1` exactly
/// when only its negative key is held, and `0` exactly when both or neither
/// are held.
pub proof fn law_axis_values(positive: bool, negative: bool)
    ensures
        (spec_axis(positive, negative) == 1) <==> (positive && !negative),
        (spec_axis(positive, negative) == -1) <==> (negative && !positive),
        (spec_axis(positive, negative) == 0) <==> (positive == negative),
{
}

/// The command of the held keys, field by field: W alone drives forward
/// (`1`), S alone in reverse (`-1`); D alone turns right (`1`), A alone left
/// (`-1`); opposing or absent keys give `0`.  The main brake is on exactly
/// while Space is held, whatever the track-brake keys; each track brake is on
/// while its own key (Q left, E right) or Space is held.
pub proof fn law_tank_command_fields(keys: TankKeys)
    ensures
        ({
            let c = spec_tank_command(keys);
            &&& c.braking == keys.brake
            &&& c.brake_left == (keys.brake_left || keys.brake)
            &&& c.brake_right == (keys.brake_right || keys.brake)
            &&& (c.forward == 1) == (keys.forward && !keys.backward)
            &&& (c.forward == -1) == (keys.backward && !keys.forward)
            &&& (c.forward == 0) == (keys.forward == keys.backward)
            &&& (c.rotation == 1) == (keys.right && !keys.left)
            &&& (c.rotation == -1) == (keys.left && !keys.right)
            &&& (c.rotation == 0) == (keys.left == keys.right)
        }),
{
}

/// Escape releases and shows a confined cursor, and confines and hides a
/// free one.
pub proof fn law_toggle_cursor_values(confined: bool)
    ensures
        spec_toggle_cursor(confined).confined == !confined,
        spec_toggle_cursor(confined).visible == confined,
{
}

} // verus!
