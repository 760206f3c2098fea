use vstd::prelude::*;
use crate::world::{World, GROUND_ROW, WORLD_HEIGHT, WORLD_WIDTH, block_for_row};

verus! {

/// Largest x of the view origin: the world's width in world units, `WORLD_WIDTH`
/// tiles of `BLOCK_WIDTH`.
pub const MAX_ORIGIN_X: i64 = 4800;
/// Largest y of the view origin: the world's height in world units, `WORLD_HEIGHT`
/// tiles of `BLOCK_HEIGHT`.
pub const MAX_ORIGIN_Y: i64 = 3000;
/// How far one held direction key moves the origin in one tick.
pub const PAN_STEP: i64 = 2;
/// Smallest zoom, in tenths: zooming out stops at 0.1.
pub const ZOOM_MIN: u32 = 1;
/// Largest zoom, in tenths: zooming in stops at 5.0.
pub const ZOOM_MAX: u32 = 50;
/// Zoom of a new camera, in tenths.
pub const ZOOM_DEFAULT: u32 = 10;

/// A direction the view can pan in.
#[derive(Clone, Copy, Debug, PartialEq, Eq, Structural)]
pub enum Direction {
    Up,
    Down,
    Left,
    Right,
}

/// A key of the keyboard: the four that pan the view, and any other by its code.
#[derive(Clone, Copy, Debug, PartialEq, Eq, Structural)]
pub enum Key {
    W,
    A,
    S,
    D,
    Other(u32),
}

/// The key that pans the view in direction `d`.
pub open spec fn key_for(d: Direction) -> Key {
    match d {
        Direction::Up => Key::W,
        Direction::Down => Key::S,
        Direction::Left => Key::A,
        Direction::Right => Key::D,
    }
}

impl Direction {
    /// The key that pans the view in this direction.
    pub fn key(&self) -> (k: Key)
        ensures
            k == key_for(*self),
    {
        match self {
            Direction::Up => Key::W,
            Direction::Down => Key::S,
            Direction::Left => Key::A,
            Direction::Right => Key::D,
        }
    }
}

/// `v` brought into `[0, hi]`.
pub open spec fn clamp(v: int, hi: int) -> int {
    if v < 0 {
        0
    } else if v > hi {
        hi
    } else {
        v
    }
}

/// The move along one axis in one tick: `PAN_STEP` towards `pos` if its key is held,
/// and `PAN_STEP` towards `neg` if its key is held; both together cancel.
pub open spec fn axis_delta(held: Set<Key>, neg: Direction, pos: Direction) -> int {
    (if held.contains(key_for(pos)) { PAN_STEP as int } else { 0int }) - (if held.contains(
        key_for(neg),
    ) {
        PAN_STEP as int
    } else {
        0int
    })
}

/// Whether an origin lies within the world.
pub open spec fn in_bounds(o: (int, int)) -> bool {
    0 <= o.0 <= MAX_ORIGIN_X && 0 <= o.1 <= MAX_ORIGIN_Y
}

/// The origin after one tick with the keys `held`: every held direction moves it
/// together, and the sum is clamped to the world.
pub open spec fn step(o: (int, int), held: Set<Key>) -> (int, int) {
    (
        clamp(o.0 + axis_delta(held, Direction::Left, Direction::Right), MAX_ORIGIN_X as int),
        clamp(o.1 + axis_delta(held, Direction::Up, Direction::Down), MAX_ORIGIN_Y as int),
    )
}

/// The origin after `n` ticks with the same keys held.
pub open spec fn run_ticks(o: (int, int), held: Set<Key>, n: nat) -> (int, int)
    decreases n,
{
    if n == 0 {
        o
    } else {
        step(run_ticks(o, held, (n - 1) as nat), held)
    }
}

/// The origin after one tick for each held-key set of `history`, in order.
pub open spec fn run_history(o: (int, int), history: Seq<Set<Key>>) -> (int, int)
    decreases history.len(),
{
    if history.len() == 0 {
        o
    } else {
        step(run_history(o, history.drop_last()), history.last())
    }
}

/// The held keys after one key event: `(k, true)` presses `k`, `(k, false)` releases it.
pub open spec fn after_event(held: Set<Key>, ev: (Key, bool)) -> Set<Key> {
    if ev.1 {
        held.insert(ev.0)
    } else {
        held.remove(ev.0)
    }
}

/// The held keys after a sequence of key events, in order.
pub open spec fn after_events(held: Set<Key>, evs: Seq<(Key, bool)>) -> Set<Key>
    decreases evs.len(),
{
    if evs.len() == 0 {
        held
    } else {
        after_event(after_events(held, evs.drop_last()), evs.last())
    }
}

/// The zoom, in tenths, after one wheel notch: up zooms in by one tenth, down zooms
/// out by one, no motion leaves it; it stays within `[ZOOM_MIN, ZOOM_MAX]`.
pub open spec fn zoom_after(z: int, notch: int) -> int {
    if notch > 0 {
        if z + 1 > ZOOM_MAX {
            ZOOM_MAX as int
        } else {
            z + 1
        }
    } else if notch < 0 {
        if z - 1 < ZOOM_MIN {
            ZOOM_MIN as int
        } else {
            z - 1
        }
    } else {
        z
    }
}

/// Whether `k` is pressed somewhere in `evs` and not released after that press.
pub open spec fn pressed_and_kept(evs: Seq<(Key, bool)>, k: Key) -> bool {
    exists|i: int|
        0 <= i < evs.len() && #[trigger] evs[i] == (k, true) && forall|j: int|
            i < j < evs.len() ==> #[trigger] evs[j] != (k, false)
}

/// Starting with no key held, the keys held after a sequence of key events are
/// exactly those pressed and not released since.
pub proof fn lemma_held_after_events(evs: Seq<(Key, bool)>, k: Key)
    ensures
        after_events(Set::<Key>::empty(), evs).contains(k) <==> pressed_and_kept(evs, k),
    decreases evs.len(),
{
    if evs.len() > 0 {
        let pre = evs.drop_last();
        let last = evs.last();
        let n = evs.len() - 1;
        lemma_held_after_events(pre, k);
        assert(evs[n] == last);
        if last == (k, true) {
            assert forall|j: int| n < j < evs.len() implies #[trigger] evs[j] != (k, false) by {}
        } else if last == (k, false) {
            if pressed_and_kept(evs, k) {
                let i = choose|i: int|
                    0 <= i < evs.len() && #[trigger] evs[i] == (k, true) && forall|j: int|
                        i < j < evs.len() ==> #[trigger] evs[j] != (k, false);
                assert(evs[n] != (k, false));
            }
        } else {
            assert(last.0 != k) by {
                if last.0 == k {
                    if last.1 {
                        assert(last == (k, true));
                    } else {
                        assert(last == (k, false));
                    }
                }
            }
            if pressed_and_kept(evs, k) {
                let i = choose|i: int|
                    0 <= i < evs.len() && #[trigger] evs[i] == (k, true) && forall|j: int|
                        i < j < evs.len() ==> #[trigger] evs[j] != (k, false);
                assert(i < n);
                assert(pre[i] == (k, true));
                assert forall|j: int| i < j < pre.len() implies #[trigger] pre[j] != (k, false) by {
                    assert(pre[j] == evs[j]);
                }
            }
            if pressed_and_kept(pre, k) {
                let i = choose|i: int|
                    0 <= i < pre.len() && #[trigger] pre[i] == (k, true) && forall|j: int|
                        i < j < pre.len() ==> #[trigger] pre[j] != (k, false);
                assert(evs[i] == (k, true));
                assert forall|j: int| i < j < evs.len() implies #[trigger] evs[j] != (k, false) by {
                    if j < n {
                        assert(pre[j] == evs[j]);
                    }
                }
            }
        }
    }
}

/// Pressing a key twice in a row leaves the same keys held as pressing it once.
pub proof fn lemma_press_twice(held: Set<Key>, evs: Seq<(Key, bool)>, k: Key)
    ensures
        after_events(held, evs.push((k, true)).push((k, true))) == after_events(
            held,
            evs.push((k, true)),
        ),
{
    let once = evs.push((k, true));
    let twice = once.push((k, true));
    assert(twice.drop_last() == once);
    assert(once.drop_last() == evs);
    let s = after_events(held, once);
    assert(s.insert(k) =~= s);
}

/// With the right key held and the left key not, `n` ticks move the origin right by
/// `PAN_STEP` each, until it stops at the world's right edge.
pub proof fn lemma_pan_right(o: (int, int), held: Set<Key>, n: nat)
    requires
        in_bounds(o),
        held.contains(Key::D),
        !held.contains(Key::A),
    ensures
        run_ticks(o, held, n).0 == if o.0 + PAN_STEP * n > MAX_ORIGIN_X {
            MAX_ORIGIN_X as int
        } else {
            o.0 + PAN_STEP * n
        },
    decreases n,
{
    if n > 0 {
        lemma_pan_right(o, held, (n - 1) as nat);
    }
}

/// One tick leaves the origin within the world, whatever it was and whatever is held.
pub proof fn lemma_step_in_bounds(o: (int, int), held: Set<Key>)
    ensures
        in_bounds(step(o, held)),
{
}

/// From an origin within the world, any sequence of ticks, whatever keys each holds,
/// leaves the origin within the world.
pub proof fn lemma_history_in_bounds(o: (int, int), history: Seq<Set<Key>>)
    requires
        in_bounds(o),
    ensures
        in_bounds(run_history(o, history)),
    decreases history.len(),
{
    if history.len() > 0 {
        lemma_history_in_bounds(o, history.drop_last());
        lemma_step_in_bounds(run_history(o, history.drop_last()), history.last());
    }
}

/// Two notches up and one down zoom in by one tenth, from any zoom at least two
/// tenths below the largest.
pub proof fn lemma_wheel_up_up_down(z: int)
    requires
        ZOOM_MIN <= z <= ZOOM_MAX - 2,
    ensures
        zoom_after(zoom_after(zoom_after(z, 1), 1), -1) == z + 1,
{
}

/// Where `key` is found among `keys`, if it is.
fn find_key(keys: &Vec<Key>, key: Key) -> (r: Option<usize>)
    ensures
        match r {
            Some(i) => i < keys@.len() && keys@[i as int] == key,
            None => !keys@.contains(key),
        },
{
    let mut i: usize = 0;
    while i < keys.len()
        invariant
            i <= keys@.len(),
            forall|j: int| 0 <= j < i ==> keys@[j] != key,
        decreases keys@.len() - i,
    {
        if keys[i] == key {
            return Some(i);
        }
        i = i + 1;
    }
    None
}

/// The game's state between frames: the world, the view origin over it, the zoom
/// and the keys being held.
pub struct State {
    world: World,
    origin_x: i64,
    origin_y: i64,
    keys_down: Vec<Key>,
    zoom: u32,
}

impl State {
    #[verifier::type_invariant]
    spec fn inv(self) -> bool {
        &&& 0 <= self.origin_x <= MAX_ORIGIN_X
        &&& 0 <= self.origin_y <= MAX_ORIGIN_Y
        &&& ZOOM_MIN <= self.zoom <= ZOOM_MAX
        &&& forall|i: int, j: int|
            0 <= i < j < self.keys_down@.len() ==> self.keys_down@[i] != self.keys_down@[j]
    }

    /// The view origin, the world position of the viewport's top-left corner.
    pub closed spec fn origin(&self) -> (int, int) {
        (self.origin_x as int, self.origin_y as int)
    }

    /// The keys being held.
    pub closed spec fn held(&self) -> Set<Key> {
        Set::new(|k: Key| self.keys_down@.contains(k))
    }

    /// The zoom, in tenths.
    pub closed spec fn zoom(&self) -> int {
        self.zoom as int
    }

    /// The world under the view.
    pub closed spec fn spec_world(&self) -> World {
        self.world
    }

    /// A state over the world `World::new(world_name)` with the origin at
    /// `(origin_x, origin_y)` clamped to the world, no key held and the default zoom.
    pub fn new(world_name: String, origin_x: i64, origin_y: i64) -> (s: State)
        ensures
            s.origin() == (
                clamp(origin_x as int, MAX_ORIGIN_X as int),
                clamp(origin_y as int, MAX_ORIGIN_Y as int),
            ),
            in_bounds(s.origin()),
            s.held() == Set::<Key>::empty(),
            s.zoom() == ZOOM_DEFAULT,
            s.spec_world().spec_name() == world_name@,
            s.spec_world().spec_width() == WORLD_WIDTH,
            s.spec_world().spec_height() == WORLD_HEIGHT,
            forall|r: int, c: int|
                0 <= r < WORLD_HEIGHT && 0 <= c < WORLD_WIDTH ==> #[trigger] s.spec_world().cell(r, c)
                    == block_for_row(r, GROUND_ROW as int),
    {
        let world = World::new(world_name);
        let x = if origin_x < 0 {
            0
        } else if origin_x > MAX_ORIGIN_X {
            MAX_ORIGIN_X
        } else {
            origin_x
        };
        let y = if origin_y < 0 {
            0
        } else if origin_y > MAX_ORIGIN_Y {
            MAX_ORIGIN_Y
        } else {
            origin_y
        };
        let s = State { world, origin_x: x, origin_y: y, keys_down: Vec::new(), zoom: ZOOM_DEFAULT };
        assert(s.held() =~= Set::<Key>::empty());
        s
    }

    /// A key went down: it is held from now on, once however often it is pressed.
    pub fn key_down_event(&mut self, key: Key)
        ensures
            final(self).held() == after_event(old(self).held(), (key, true)),
            final(self).origin() == old(self).origin(),
            final(self).zoom() == old(self).zoom(),
            final(self).spec_world() == old(self).spec_world(),
    {
        proof {
            use_type_invariant(&*self);
        }
        if find_key(&self.keys_down, key).is_none() {
            let mut keys: Vec<Key> = Vec::new();
            std::mem::swap(&mut keys, &mut self.keys_down);
            let ghost prev = keys@;
            keys.push(key);
            proof {
                assert forall|k: Key| #[trigger] keys@.contains(k) <==> prev.contains(k) || k == key by {
                    if keys@.contains(k) {
                        let i = choose|i: int| 0 <= i < keys@.len() && keys@[i] == k;
                        if i < prev.len() {
                            assert(prev[i] == k);
                        }
                    }
                    if prev.contains(k) {
                        let i = choose|i: int| 0 <= i < prev.len() && prev[i] == k;
                        assert(keys@[i] == k);
                    }
                    if k == key {
                        assert(keys@[prev.len() as int] == k);
                    }
                }
            }
            self.keys_down = keys;
        }
        assert(self.held() =~= old(self).held().insert(key));
    }

    /// A key went up: it is no longer held.
    pub fn key_up_event(&mut self, key: Key)
        ensures
            final(self).held() == after_event(old(self).held(), (key, false)),
            final(self).origin() == old(self).origin(),
            final(self).zoom() == old(self).zoom(),
            final(self).spec_world() == old(self).spec_world(),
    {
        proof {
            use_type_invariant(&*self);
        }
        match find_key(&self.keys_down, key) {
            Some(i) => {
                let mut keys: Vec<Key> = Vec::new();
                std::mem::swap(&mut keys, &mut self.keys_down);
                let ghost prev = keys@;
                keys.remove(i);
                proof {
                    assert forall|k: Key| #[trigger] keys@.contains(k) <==> prev.contains(k) && k != key by {
                        if keys@.contains(k) {
                            let j = choose|j: int| 0 <= j < keys@.len() && keys@[j] == k;
                            if j < i {
                                assert(prev[j] == k);
                            } else {
                                assert(prev[j + 1] == k);
                            }
                        }
                        if prev.contains(k) && k != key {
                            let j = choose|j: int| 0 <= j < prev.len() && prev[j] == k;
                            if j < i {
                                assert(keys@[j] == k);
                            } else {
                                assert(keys@[j - 1] == k);
                            }
                        }
                    }
                }
                self.keys_down = keys;
            },
            None => {},
        }
        assert(self.held() =~= old(self).held().remove(key));
    }

    /// The wheel turned: `notch` above zero zooms in by a tenth, below zero zooms out
    /// by a tenth, within `[ZOOM_MIN, ZOOM_MAX]`.
    pub fn mouse_wheel_event(&mut self, notch: i32)
        ensures
            final(self).zoom() == zoom_after(old(self).zoom(), notch as int),
            final(self).origin() == old(self).origin(),
            final(self).held() == old(self).held(),
            final(self).spec_world() == old(self).spec_world(),
    {
        proof {
            use_type_invariant(&*self);
        }
        if notch > 0 {
            if self.zoom < ZOOM_MAX {
                self.zoom = self.zoom + 1;
            }
        } else if notch < 0 {
            if self.zoom > ZOOM_MIN {
                self.zoom = self.zoom - 1;
            }
        }
    }

    /// The x of the view origin.
    pub fn origin_x(&self) -> (r: i64)
        ensures
            r == self.origin().0,
    {
        self.origin_x
    }

    /// The y of the view origin.
    pub fn origin_y(&self) -> (r: i64)
        ensures
            r == self.origin().1,
    {
        self.origin_y
    }

    /// The zoom, in tenths.
    pub fn zoom_tenths(&self) -> (r: u32)
        ensures
            r == self.zoom(),
    {
        self.zoom
    }

    /// The world under the view.
    pub fn world(&self) -> (r: &World)
        ensures
            *r == self.spec_world(),
    {
        &self.world
    }

    /// Whether `key` is being held.
    pub fn is_held(&self, key: Key) -> (r: bool)
        ensures
            r == self.held().contains(key),
    {
        find_key(&self.keys_down, key).is_some()
    }

    /// One tick: the held direction keys move the origin together, clamped to the world.
    pub fn update(&mut self)
        ensures
            final(self).origin() == step(old(self).origin(), old(self).held()),
            in_bounds(final(self).origin()),
            final(self).held() == old(self).held(),
            final(self).zoom() == old(self).zoom(),
            final(self).spec_world() == old(self).spec_world(),
    {
        proof {
            use_type_invariant(&*self);
        }
        let right: i64 = if self.is_held(Direction::Right.key()) { PAN_STEP } else { 0 };
        let left: i64 = if self.is_held(Direction::Left.key()) { PAN_STEP } else { 0 };
        let down: i64 = if self.is_held(Direction::Down.key()) { PAN_STEP } else { 0 };
        let up: i64 = if self.is_held(Direction::Up.key()) { PAN_STEP } else { 0 };
        let x = self.origin_x + right - left;
        let y = self.origin_y + down - up;
        self.origin_x = if x < 0 {
            0
        } else if x > MAX_ORIGIN_X {
            MAX_ORIGIN_X
        } else {
            x
        };
        self.origin_y = if y < 0 {
            0
        } else if y > MAX_ORIGIN_Y {
            MAX_ORIGIN_Y
        } else {
            y
        };
    }
}

} // verus!
