use vstd::prelude::*;

verus! {

/// A key of the keyboard that the player presses.
#[derive(Debug, Clone, Copy, PartialEq, Eq, Structural)]
pub enum Key {
    LeftArrow,
    RightArrow,
    Space,
    /// A key given by its raw key code.
    Raw(u16),
}

/// One step of simulated keyboard input.
#[derive(Debug, Clone, Copy, PartialEq, Eq, Structural)]
pub enum KeyAction {
    /// Press the key down.
    Down(Key),
    /// Release the key.
    Up(Key),
    /// Wait this many milliseconds.
    Wait(u64),
}

/// How long a key is held, and how long to pause after releasing it.
pub const KEY_HOLD_MS: u64 = 15;

/// One key press: down, hold, up, pause.
pub open spec fn press(key: Key) -> Seq<KeyAction> {
    seq![
        KeyAction::Down(key),
        KeyAction::Wait(KEY_HOLD_MS),
        KeyAction::Up(key),
        KeyAction::Wait(KEY_HOLD_MS),
    ]
}

/// The presses of `keys`, one after the other.
pub open spec fn presses(keys: Seq<Key>) -> Seq<KeyAction>
    decreases keys.len(),
{
    if keys.len() == 0 {
        Seq::empty()
    } else {
        presses(keys.drop_last()) + press(keys.last())
    }
}

/// The input that presses `key` once: down, 15 ms, up, 15 ms.
pub fn input_key(key: Key) -> (actions: Vec<KeyAction>)
    ensures
        actions@ == press(key),
{
    let mut actions: Vec<KeyAction> = Vec::new();
    actions.push(KeyAction::Down(key));
    actions.push(KeyAction::Wait(KEY_HOLD_MS));
    actions.push(KeyAction::Up(key));
    actions.push(KeyAction::Wait(KEY_HOLD_MS));
    assert(actions@ =~= press(key));
    actions
}

fn input_keys(keys: &Vec<Key>) -> (actions: Vec<KeyAction>)
    ensures
        actions@ == presses(keys@),
{
    let mut actions: Vec<KeyAction> = Vec::new();
    let mut i: usize = 0;
    while i < keys.len()
        invariant
            i <= keys@.len(),
            actions@ == presses(keys@.take(i as int)),
        decreases keys@.len() - i,
    {
        let mut one = input_key(keys[i]);
        actions.append(&mut one);
        assert(keys@.take(i + 1).drop_last() =~= keys@.take(i as int));
        i = i + 1;
    }
    assert(keys@.take(keys@.len() as int) =~= keys@);
    actions
}

/// The keys that `key_test` presses: left, the raw key 0x5A, space.
pub open spec fn key_test_keys() -> Seq<Key> {
    seq![Key::LeftArrow, Key::Raw(0x5Au16), Key::Space]
}

/// The keys that `move_right` presses: right five times, then space.
pub open spec fn move_right_keys() -> Seq<Key> {
    seq![
        Key::RightArrow,
        Key::RightArrow,
        Key::RightArrow,
        Key::RightArrow,
        Key::RightArrow,
        Key::Space,
    ]
}

/// The keys that `move_left` presses: left five times, then space.
pub open spec fn move_left_keys() -> Seq<Key> {
    seq![
        Key::LeftArrow,
        Key::LeftArrow,
        Key::LeftArrow,
        Key::LeftArrow,
        Key::LeftArrow,
        Key::Space,
    ]
}

/// The keys that `move_drop` presses: space.
pub open spec fn move_drop_keys() -> Seq<Key> {
    seq![Key::Space]
}

/// The input of a trial run: left, the raw key 0x5A, space.
pub fn key_test() -> (actions: Vec<KeyAction>)
    ensures
        actions@ == presses(key_test_keys()),
{
    let keys = vec![Key::LeftArrow, Key::Raw(0x5A), Key::Space];
    assert(keys@ =~= key_test_keys());
    input_keys(&keys)
}

/// The input that moves the piece to the right wall and drops it.
pub fn move_right() -> (actions: Vec<KeyAction>)
    ensures
        actions@ == presses(move_right_keys()),
{
    let keys = vec![
        Key::RightArrow,
        Key::RightArrow,
        Key::RightArrow,
        Key::RightArrow,
        Key::RightArrow,
        Key::Space,
    ];
    assert(keys@ =~= move_right_keys());
    input_keys(&keys)
}

/// The input that moves the piece to the left wall and drops it.
pub fn move_left() -> (actions: Vec<KeyAction>)
    ensures
        actions@ == presses(move_left_keys()),
{
    let keys = vec![
        Key::LeftArrow,
        Key::LeftArrow,
        Key::LeftArrow,
        Key::LeftArrow,
        Key::LeftArrow,
        Key::Space,
    ];
    assert(keys@ =~= move_left_keys());
    input_keys(&keys)
}

/// The input that drops the piece where it is.
pub fn move_drop() -> (actions: Vec<KeyAction>)
    ensures
        actions@ == presses(move_drop_keys()),
{
    let keys = vec![Key::Space];
    assert(keys@ =~= move_drop_keys());
    input_keys(&keys)
}


/// Pressing the keys of `a` and then those of `b` is the same input as
/// pressing the keys of `a + b`.
pub proof fn law_presses_concat(a: Seq<Key>, b: Seq<Key>)
    ensures
        presses(a + b) == presses(a) + presses(b),
    decreases b.len(),
{
    if b.len() == 0 {
        assert(a + b =~= a);
        assert(presses(a) + presses(b) =~= presses(a));
    } else {
        law_presses_concat(a, b.drop_last());
        assert((a + b).drop_last() =~= a + b.drop_last());
        assert((a + b).last() == b.last());
        assert(presses(a + b) =~= presses(a) + presses(b));
    }
}


/// A plan of presses holds four actions per key: for the key at position
/// `i`, action `4i` presses it, `4i + 1` waits 15 ms, `4i + 2` releases it
/// and `4i + 3` waits 15 ms.
pub proof fn law_press_layout(keys: Seq<Key>)
    ensures
        presses(keys).len() == 4 * keys.len(),
        forall|i: int|
            0 <= i < keys.len() ==> {
                &&& #[trigger] presses(keys)[4 * i] == KeyAction::Down(keys[i])
                &&& presses(keys)[4 * i + 1] == KeyAction::Wait(15)
                &&& presses(keys)[4 * i + 2] == KeyAction::Up(keys[i])
                &&& presses(keys)[4 * i + 3] == KeyAction::Wait(15)
            },
    decreases keys.len(),
{
    if keys.len() > 0 {
        let t = keys.drop_last();
        law_press_layout(t);
        assert forall|i: int| 0 <= i < keys.len() implies {
            &&& #[trigger] presses(keys)[4 * i] == KeyAction::Down(keys[i])
            &&& presses(keys)[4 * i + 1] == KeyAction::Wait(15)
            &&& presses(keys)[4 * i + 2] == KeyAction::Up(keys[i])
            &&& presses(keys)[4 * i + 3] == KeyAction::Wait(15)
        } by {
            if i < keys.len() - 1 {
                assert(keys[i] == t[i]);
            }
        }
    }
}

/// The planned keys: the trial run presses left, the raw key 0x5A and space;
/// moving right presses right five times then space; moving left presses
/// left five times then space; dropping presses space once.
pub proof fn law_planned_keys()
    ensures
        key_test_keys() == seq![Key::LeftArrow, Key::Raw(0x5A), Key::Space],
        move_right_keys().len() == 6 && move_right_keys()[5] == Key::Space && forall|i: int|
            0 <= i < 5 ==> #[trigger] move_right_keys()[i] == Key::RightArrow,
        move_left_keys().len() == 6 && move_left_keys()[5] == Key::Space && forall|i: int|
            0 <= i < 5 ==> #[trigger] move_left_keys()[i] == Key::LeftArrow,
        move_drop_keys() == seq![Key::Space],
{
}

} // verus!
