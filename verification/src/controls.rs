use vstd::prelude::*;

use crate::input::Key;

verus! {

/// Units per second that the camera moves while a movement key is held.
pub const MOVE_SPEED: u32 = 30;

/// Radians per second that the camera turns while a turning key is held.
pub const TURN_SPEED: u32 = 1;

/// What a held key does to the camera in each frame, scaled by the frame's
/// duration: add `speed * seconds` (or subtract it, where `positive` is
/// false) to one coordinate.
#[derive(Clone, Copy, Debug, PartialEq, Eq)]
pub enum CameraAction {
    /// Change coordinate `axis` of the position (0: x, 1: y, 2: z).
    Move { axis: usize, positive: bool, speed: u32 },
    /// Change angle `axis` of the rotation (0: about x, 1: about y).
    Turn { axis: usize, positive: bool, speed: u32 },
}

/// The camera control that each key stands for.
pub open spec fn spec_key_action(key: Key) -> Option<CameraAction> {
    match key {
        Key::D => Some(CameraAction::Move { axis: 0, positive: false, speed: MOVE_SPEED }),
        Key::A => Some(CameraAction::Move { axis: 0, positive: true, speed: MOVE_SPEED }),
        Key::Space => Some(CameraAction::Move { axis: 1, positive: false, speed: MOVE_SPEED }),
        Key::LShift => Some(CameraAction::Move { axis: 1, positive: true, speed: MOVE_SPEED }),
        Key::S => Some(CameraAction::Move { axis: 2, positive: false, speed: MOVE_SPEED }),
        Key::W => Some(CameraAction::Move { axis: 2, positive: true, speed: MOVE_SPEED }),
        Key::Right => Some(CameraAction::Turn { axis: 1, positive: true, speed: TURN_SPEED }),
        Key::Left => Some(CameraAction::Turn { axis: 1, positive: false, speed: TURN_SPEED }),
        Key::Up => Some(CameraAction::Turn { axis: 0, positive: true, speed: TURN_SPEED }),
        Key::Down => Some(CameraAction::Turn { axis: 0, positive: false, speed: TURN_SPEED }),
        _ => None,
    }
}

/// An action addresses a coordinate that exists: a position has three, a
/// rotation two.
pub open spec fn action_in_range(a: CameraAction) -> bool {
    match a {
        CameraAction::Move { axis, .. } => axis < 3,
        CameraAction::Turn { axis, .. } => axis < 2,
    }
}

/// The camera control of a key, if it has one.
pub fn key_action(key: Key) -> (r: Option<CameraAction>)
    ensures
        r == spec_key_action(key),
        r matches Some(a) ==> action_in_range(a),
{
    match key {
        Key::D => Some(CameraAction::Move { axis: 0, positive: false, speed: MOVE_SPEED }),
        Key::A => Some(CameraAction::Move { axis: 0, positive: true, speed: MOVE_SPEED }),
        Key::Space => Some(CameraAction::Move { axis: 1, positive: false, speed: MOVE_SPEED }),
        Key::LShift => Some(CameraAction::Move { axis: 1, positive: true, speed: MOVE_SPEED }),
        Key::S => Some(CameraAction::Move { axis: 2, positive: false, speed: MOVE_SPEED }),
        Key::W => Some(CameraAction::Move { axis: 2, positive: true, speed: MOVE_SPEED }),
        Key::Right => Some(CameraAction::Turn { axis: 1, positive: true, speed: TURN_SPEED }),
        Key::Left => Some(CameraAction::Turn { axis: 1, positive: false, speed: TURN_SPEED }),
        Key::Up => Some(CameraAction::Turn { axis: 0, positive: true, speed: TURN_SPEED }),
        Key::Down => Some(CameraAction::Turn { axis: 0, positive: false, speed: TURN_SPEED }),
        _ => None,
    }
}

/// The actions of `keys`, in the order of the keys; keys without one are skipped.
pub open spec fn spec_camera_actions(keys: Seq<Key>) -> Seq<CameraAction>
    decreases keys.len(),
{
    if keys.len() == 0 {
        Seq::empty()
    } else {
        let rest = spec_camera_actions(keys.drop_last());
        match spec_key_action(keys.last()) {
            Some(a) => rest.push(a),
            None => rest,
        }
    }
}

/// The actions to apply this frame for the keys held down, in the order
/// the keys were pressed.
pub fn camera_actions(keys: &[Key]) -> (r: Vec<CameraAction>)
    ensures
        r@ == spec_camera_actions(keys@),
        forall|i: int| 0 <= i < r@.len() ==> action_in_range(#[trigger] r@[i]),
{
    let mut out: Vec<CameraAction> = Vec::new();
    let n: usize = keys.len();
    let mut i: usize = 0;
    while i < n
        invariant
            n == keys@.len(),
            i <= n,
            out@ == spec_camera_actions(keys@.take(i as int)),
            forall|j: int| 0 <= j < out@.len() ==> action_in_range(#[trigger] out@[j]),
        decreases n - i,
    {
        assert(keys@.take(i + 1).drop_last() =~= keys@.take(i as int));
        assert(keys@.take(i + 1).last() == keys@[i as int]);
        match key_action(keys[i]) {
            Some(a) => out.push(a),
            None => {},
        }
        i = i + 1;
    }
    assert(keys@.take(n as int) =~= keys@);
    out
}

/// The actions of one key: its action, if it has one.
proof fn lemma_camera_actions_one(k: Key)
    ensures
        spec_camera_actions(seq![k]) == match spec_key_action(k) {
            Some(a) => seq![a],
            None => Seq::<CameraAction>::empty(),
        },
{
    assert(seq![k].drop_last() =~= Seq::<Key>::empty());
    assert(seq![k].last() == k);
    assert(spec_camera_actions(Seq::<Key>::empty()) == Seq::<CameraAction>::empty());
    assert(Seq::<CameraAction>::empty().push(spec_key_action(k)->0) =~= seq![spec_key_action(k)->0]);
}

/// The actions of keys held one after the other are the actions of the
/// first keys followed by those of the later ones.
pub proof fn lemma_camera_actions_concat(a: Seq<Key>, b: Seq<Key>)
    ensures
        spec_camera_actions(a + b) == spec_camera_actions(a) + spec_camera_actions(b),
    decreases b.len(),
{
    if b.len() == 0 {
        assert(a + b =~= a);
        assert(spec_camera_actions(a) + Seq::<CameraAction>::empty() =~= spec_camera_actions(a));
    } else {
        assert((a + b).drop_last() =~= a + b.drop_last());
        assert((a + b).last() == b.last());
        lemma_camera_actions_concat(a, b.drop_last());
        let x = spec_camera_actions(a);
        let y = spec_camera_actions(b.drop_last());
        match spec_key_action(b.last()) {
            Some(c) => {
                assert((x + y).push(c) =~= x + y.push(c));
            },
            None => {},
        }
    }
}

/// No keys give no actions; each held key gives its own action, if it has
/// one, in the order the keys were pressed: a key added last adds its action
/// last.
pub proof fn lemma_camera_actions_in_key_order(keys: Seq<Key>, k: Key)
    ensures
        spec_camera_actions(Seq::<Key>::empty()) == Seq::<CameraAction>::empty(),
        spec_camera_actions(keys.push(k)) == spec_camera_actions(keys) + match spec_key_action(k) {
            Some(a) => seq![a],
            None => Seq::<CameraAction>::empty(),
        },
        spec_camera_actions(keys).len() <= keys.len(),
    decreases keys.len(),
{
    assert(keys.push(k) =~= keys + seq![k]);
    lemma_camera_actions_concat(keys, seq![k]);
    lemma_camera_actions_one(k);
    if keys.len() > 0 {
        lemma_camera_actions_in_key_order(keys.drop_last(), keys.last());
        assert(keys.drop_last().push(keys.last()) =~= keys);
    }
}

/// The controls: A and D move along x, LShift and Space along y, W and S
/// along z, each pair in opposite directions at the movement speed; Up and
/// Down turn about x, Right and Left about y, each pair in opposite
/// directions at the turning speed; Escape and every other key do nothing
/// to the camera.
pub proof fn lemma_controls()
    ensures
        spec_key_action(Key::A) == Some(CameraAction::Move { axis: 0, positive: true, speed: 30 }),
        spec_key_action(Key::D) == Some(CameraAction::Move { axis: 0, positive: false, speed: 30 }),
        spec_key_action(Key::LShift) == Some(CameraAction::Move { axis: 1, positive: true, speed: 30 }),
        spec_key_action(Key::Space) == Some(CameraAction::Move { axis: 1, positive: false, speed: 30 }),
        spec_key_action(Key::W) == Some(CameraAction::Move { axis: 2, positive: true, speed: 30 }),
        spec_key_action(Key::S) == Some(CameraAction::Move { axis: 2, positive: false, speed: 30 }),
        spec_key_action(Key::Up) == Some(CameraAction::Turn { axis: 0, positive: true, speed: 1 }),
        spec_key_action(Key::Down) == Some(CameraAction::Turn { axis: 0, positive: false, speed: 1 }),
        spec_key_action(Key::Right) == Some(CameraAction::Turn { axis: 1, positive: true, speed: 1 }),
        spec_key_action(Key::Left) == Some(CameraAction::Turn { axis: 1, positive: false, speed: 1 }),
        spec_key_action(Key::Escape) is None,
        forall|c: u32| #[trigger] spec_key_action(Key::Other(c)) is None,
{
}

} // verus!
