use vstd::prelude::*;
use crate::labels::LabelMap;
use crate::text::{labelled_number, split_plus, upper_of, uppercase};
use crate::viewport::Viewport;

verus! {

/// Whether a button is held.
#[derive(Clone, Copy, Debug, PartialEq, Eq, Structural)]
pub enum ButtonState {
    Down,
    Up,
}

/// A logical engine event, handed to the game in order.
#[derive(Clone, Debug)]
pub enum Event {
    Load,
    Button { button: String, transition: String },
    Scroll { x: i32, y: i32 },
    Text { text: String },
    Step { delta_nanos: u64 },
    Exit,
}

/// An event as plain values.
pub enum EventView {
    Load,
    Button { button: Seq<char>, transition: Seq<char> },
    Scroll { x: i32, y: i32 },
    Text { text: Seq<char> },
    Step { delta_nanos: u64 },
    Exit,
}

impl View for Event {
    type V = EventView;

    open spec fn view(&self) -> EventView {
        match self {
            Event::Load => EventView::Load,
            Event::Button { button, transition } => EventView::Button {
                button: button@,
                transition: transition@,
            },
            Event::Scroll { x, y } => EventView::Scroll { x: *x, y: *y },
            Event::Text { text } => EventView::Text { text: text@ },
            Event::Step { delta_nanos } => EventView::Step { delta_nanos: *delta_nanos },
            Event::Exit => EventView::Exit,
        }
    }
}

impl Event {
    /// The name of the event's kind.
    pub fn type_str(&self) -> (r: &'static str)
        ensures
            r@ == match self {
                Event::Load => "LOAD"@,
                Event::Button { .. } => "BUTTON"@,
                Event::Scroll { .. } => "SCROLL"@,
                Event::Text { .. } => "TEXT"@,
                Event::Step { .. } => "STEP"@,
                Event::Exit => "EXIT"@,
            },
    {
        match self {
            Event::Load => "LOAD",
            Event::Button { .. } => "BUTTON",
            Event::Scroll { .. } => "SCROLL",
            Event::Text { .. } => "TEXT",
            Event::Step { .. } => "STEP",
            Event::Exit => "EXIT",
        }
    }
}

/// A physical mouse button.
#[derive(Clone, Copy, Debug, PartialEq, Eq, Structural)]
pub enum MouseButton {
    Left,
    Middle,
    Right,
    Other(u16),
}

/// Scroll motion, in thousandths of a line, that makes one line.
pub const SCROLL_UNIT: i32 = 1000;

/// The transition label of a press or a release.
pub open spec fn transition_label(pressed: bool) -> Seq<char> {
    if pressed {
        "PRESSED"@
    } else {
        "RELEASED"@
    }
}

/// The state a press or a release leaves a button in.
pub open spec fn state_after(pressed: bool) -> ButtonState {
    if pressed {
        ButtonState::Down
    } else {
        ButtonState::Up
    }
}

/// The events one observation of `name` adds: one where it changes the
/// button's state or is the first of that button, none otherwise.
pub open spec fn observed_events(
    buttons: Map<Seq<char>, ButtonState>,
    name: Seq<char>,
    pressed: bool,
) -> Seq<EventView> {
    if buttons.contains_key(name) && buttons[name] == state_after(pressed) {
        Seq::empty()
    } else {
        seq![EventView::Button { button: name, transition: transition_label(pressed) }]
    }
}

/// `v / d` rounded toward zero.
pub open spec fn div_toward_zero(v: int, d: int) -> int {
    if v >= 0 {
        v / d
    } else {
        -((-v) / d)
    }
}

/// The events that a change of state of a button known by `code`, and by
/// `alias` where it has one, queues: one for each name.
pub open spec fn change_events(code: Seq<char>, alias: Option<Seq<char>>, pressed: bool) -> Seq<EventView> {
    seq![EventView::Button { button: code, transition: transition_label(pressed) }] + match alias {
        Some(a) => seq![EventView::Button { button: a, transition: transition_label(pressed) }],
        None => Seq::empty(),
    }
}

/// Whether neither name of a button is held, and the alias, if any, is a
/// name of its own.
pub open spec fn released_button(t: InputTracker, code: Seq<char>, alias: Option<Seq<char>>) -> bool {
    &&& !t.spec_down(code)
    &&& alias matches Some(a) ==> a != code && !t.spec_down(a)
}

/// A press seen twice in a row for a button that was not held yields
/// exactly one pressed event for each of its names; the second press adds
/// nothing and changes no state.
pub proof fn lemma_press_twice_one_event(
    t0: InputTracker,
    t1: InputTracker,
    t2: InputTracker,
    code: Seq<char>,
    alias: Option<Seq<char>>,
)
    requires
        released_button(t0, code, alias),
        InputTracker::button_event_relation(t0, t1, code, alias, true),
        InputTracker::button_event_relation(t1, t2, code, alias, true),
    ensures
        t2.spec_events() == t0.spec_events() + change_events(code, alias, true),
        t2.spec_buttons() == t1.spec_buttons(),
        t1.spec_down(code),
        alias matches Some(a) ==> t1.spec_down(a),
{
    let mid = t0.spec_buttons().insert(code, ButtonState::Down);
    assert(observed_events(t0.spec_buttons(), code, true) == seq![
        EventView::Button { button: code, transition: transition_label(true) },
    ]);
    match alias {
        Some(a) => {
            assert(observed_events(mid, a, true) == seq![
                EventView::Button { button: a, transition: transition_label(true) },
            ]);
            assert(t1.spec_buttons() == mid.insert(a, ButtonState::Down));
            assert(t1.spec_buttons().insert(code, ButtonState::Down) =~= t1.spec_buttons());
            assert(t1.spec_buttons().insert(code, ButtonState::Down).insert(a, ButtonState::Down)
                =~= t1.spec_buttons());
        },
        None => {
            assert(t1.spec_buttons().insert(code, ButtonState::Down) =~= t1.spec_buttons());
        },
    }
    assert(t2.spec_events() =~= t0.spec_events() + change_events(code, alias, true));
}

/// A press then a release of a button that was not held yields exactly
/// two events for each of its names, pressed then released, and leaves
/// each name up.
pub proof fn lemma_press_release_two_events(
    t0: InputTracker,
    t1: InputTracker,
    t2: InputTracker,
    code: Seq<char>,
    alias: Option<Seq<char>>,
)
    requires
        released_button(t0, code, alias),
        InputTracker::button_event_relation(t0, t1, code, alias, true),
        InputTracker::button_event_relation(t1, t2, code, alias, false),
    ensures
        t2.spec_events() == t0.spec_events() + change_events(code, alias, true) + change_events(
            code,
            alias,
            false,
        ),
        t2.spec_buttons().contains_key(code) && t2.spec_buttons()[code] == ButtonState::Up,
        alias matches Some(a) ==> t2.spec_buttons().contains_key(a) && t2.spec_buttons()[a]
            == ButtonState::Up,
{
    let mid = t0.spec_buttons().insert(code, ButtonState::Down);
    assert(observed_events(t0.spec_buttons(), code, true) == seq![
        EventView::Button { button: code, transition: transition_label(true) },
    ]);
    let mid2 = t1.spec_buttons().insert(code, ButtonState::Up);
    match alias {
        Some(a) => {
            assert(observed_events(mid, a, true) == seq![
                EventView::Button { button: a, transition: transition_label(true) },
            ]);
            assert(t1.spec_buttons()[code] == ButtonState::Down);
            assert(mid2[a] == ButtonState::Down);
            assert(observed_events(mid2, a, false) == seq![
                EventView::Button { button: a, transition: transition_label(false) },
            ]);
        },
        None => {},
    }
    assert(observed_events(t1.spec_buttons(), code, false) == seq![
        EventView::Button { button: code, transition: transition_label(false) },
    ]);
    assert(t2.spec_events() =~= t0.spec_events() + change_events(code, alias, true) + change_events(
        code,
        alias,
        false,
    ));
}

/// The chord `a+b` is held exactly when `a` and `b` are each held.
pub proof fn lemma_chord_pair(t: InputTracker, a: Seq<char>, b: Seq<char>)
    requires
        crate::text::no_plus(a),
        crate::text::no_plus(b),
    ensures
        t.spec_chord_down(a + seq!['+'] + b) == (t.spec_down(upper_of(a)) && t.spec_down(upper_of(b))),
{
    crate::text::lemma_split_plus_pair(a, b);
    let parts = split_plus(a + seq!['+'] + b);
    assert(parts[0] == a && parts[1] == b);
}

/// `v` limited to the range of `i32`.
pub open spec fn saturate_i32(v: int) -> int {
    if v > i32::MAX {
        i32::MAX as int
    } else if v < i32::MIN {
        i32::MIN as int
    } else {
        v
    }
}

/// Raw device input folded into button states, a pointer position, and a
/// queue of engine events.
pub struct InputTracker {
    button_states: LabelMap<ButtonState>,
    events: Vec<Event>,
    mouse_position: (i32, i32),
    scroll_accumulator: (i32, i32),
    close_requested: bool,
}

impl InputTracker {
    /// The state of each button seen so far.
    pub closed spec fn spec_buttons(&self) -> Map<Seq<char>, ButtonState> {
        self.button_states@
    }

    /// The queued events, oldest first.
    pub closed spec fn spec_events(&self) -> Seq<EventView> {
        self.events@.map_values(|e: Event| e@)
    }

    /// The last pointer position, in window pixels.
    pub closed spec fn spec_mouse(&self) -> (i32, i32) {
        self.mouse_position
    }

    /// Scroll motion not yet reported, in thousandths of a line.
    pub closed spec fn spec_scroll(&self) -> (i32, i32) {
        self.scroll_accumulator
    }

    /// Whether the window was asked to close.
    pub closed spec fn spec_close_requested(&self) -> bool {
        self.close_requested
    }

    /// Whether `name` is held.
    pub open spec fn spec_down(&self, name: Seq<char>) -> bool {
        self.spec_buttons().contains_key(name) && self.spec_buttons()[name] == ButtonState::Down
    }

    /// Whether every `'+'`-separated piece of `chord`, in upper case, is held.
    pub open spec fn spec_chord_down(&self, chord: Seq<char>) -> bool {
        forall|i: int|
            0 <= i < split_plus(chord).len() ==> self.spec_down(upper_of(#[trigger] split_plus(chord)[i]))
    }

    /// The button table is well formed, and less than one line of
    /// scrolling is held back on each axis.
    pub closed spec fn wf(&self) -> bool {
        &&& self.button_states.wf()
        &&& -SCROLL_UNIT < self.scroll_accumulator.0 < SCROLL_UNIT
        &&& -SCROLL_UNIT < self.scroll_accumulator.1 < SCROLL_UNIT
    }

    /// A tracker with no buttons seen, no events, and nothing held back.
    pub fn new() -> (r: Self)
        ensures
            r.wf(),
            r.spec_buttons() == Map::<Seq<char>, ButtonState>::empty(),
            r.spec_events() == Seq::<EventView>::empty(),
            r.spec_mouse() == (0i32, 0i32),
            r.spec_scroll() == (0i32, 0i32),
            !r.spec_close_requested(),
    {
        let r = InputTracker {
            button_states: LabelMap::new(),
            events: Vec::new(),
            mouse_position: (0, 0),
            scroll_accumulator: (0, 0),
            close_requested: false,
        };
        assert(r.spec_events() =~= Seq::<EventView>::empty());
        r
    }

    /// Sets the state of `name` and returns the one it had.
    fn record_state(&mut self, name: &String, state: ButtonState) -> (prev: Option<ButtonState>)
        requires
            old(self).wf(),
        ensures
            final(self).wf(),
            prev == (if old(self).spec_buttons().contains_key(name@) {
                Some(old(self).spec_buttons()[name@])
            } else {
                None
            }),
            final(self).spec_buttons() == old(self).spec_buttons().insert(name@, state),
            final(self).spec_events() == old(self).spec_events(),
            final(self).spec_mouse() == old(self).spec_mouse(),
            final(self).spec_scroll() == old(self).spec_scroll(),
            final(self).spec_close_requested() == old(self).spec_close_requested(),
    {
        let prev = self.button_states.get(name.as_str());
        self.button_states.insert(name.as_str(), state);
        prev
    }

    /// Queues `e` after the events already queued.
    fn push_event(&mut self, e: Event)
        ensures
            old(self).wf() ==> final(self).wf(),
            final(self).spec_events() == old(self).spec_events().push(e@),
            final(self).spec_buttons() == old(self).spec_buttons(),
            final(self).button_states == old(self).button_states,
            final(self).spec_mouse() == old(self).spec_mouse(),
            final(self).spec_scroll() == old(self).spec_scroll(),
            final(self).spec_close_requested() == old(self).spec_close_requested(),
    {
        self.events.push(e);
        assert(self.spec_events() =~= old(self).spec_events().push(e@));
        assert(self.scroll_accumulator == old(self).scroll_accumulator);
    }

    /// One press or release of the button `name`: its state is set, and a
    /// button event is queued only where the state changes or the button
    /// is new.
    fn observe(&mut self, name: String, pressed: bool)
        requires
            old(self).wf(),
        ensures
            final(self).wf(),
            final(self).spec_buttons() == old(self).spec_buttons().insert(name@, state_after(pressed)),
            final(self).spec_events() == old(self).spec_events() + observed_events(
                old(self).spec_buttons(),
                name@,
                pressed,
            ),
            final(self).spec_mouse() == old(self).spec_mouse(),
            final(self).spec_scroll() == old(self).spec_scroll(),
            final(self).spec_close_requested() == old(self).spec_close_requested(),
    {
        let state = if pressed { ButtonState::Down } else { ButtonState::Up };
        let prev = self.record_state(&name, state);
        let changed = match prev {
            Some(p) => p != state,
            None => true,
        };
        if changed {
            let transition = if pressed { "PRESSED".to_owned() } else { "RELEASED".to_owned() };
            self.push_event(Event::Button { button: name, transition });
            assert(self.spec_events() =~= old(self).spec_events() + observed_events(
                old(self).spec_buttons(),
                name@,
                pressed,
            ));
        } else {
            assert(self.spec_events() =~= old(self).spec_events() + observed_events(
                old(self).spec_buttons(),
                name@,
                pressed,
            ));
        }
    }

    /// How `button_event` takes `pre` to `post`.
    pub open spec fn button_event_relation(
        pre: InputTracker,
        post: InputTracker,
        code: Seq<char>,
        alias: Option<Seq<char>>,
        pressed: bool,
    ) -> bool {
        let mid = pre.spec_buttons().insert(code, state_after(pressed));
        &&& post.spec_buttons() == match alias {
            Some(a) => mid.insert(a, state_after(pressed)),
            None => mid,
        }
        &&& post.spec_events() == pre.spec_events() + observed_events(pre.spec_buttons(), code, pressed)
            + match alias {
            Some(a) => observed_events(mid, a, pressed),
            None => Seq::empty(),
        }
        &&& post.spec_mouse() == pre.spec_mouse()
        &&& post.spec_scroll() == pre.spec_scroll()
        &&& post.spec_close_requested() == pre.spec_close_requested()
    }

    /// A press or release of a physical button known by `code`, and by
    /// `alias` where it has a name as well. Each of the two is deduplicated
    /// on its own: it queues an event only where its state changes or it is
    /// seen for the first time.
    pub fn button_event(&mut self, code: String, alias: Option<String>, pressed: bool)
        requires
            old(self).wf(),
        ensures
            final(self).wf(),
            Self::button_event_relation(
                *old(self),
                *final(self),
                code@,
                match alias {
                    Some(a) => Some(a@),
                    None => None,
                },
                pressed,
            ),
    {
        let ghost code_view = code@;
        self.observe(code, pressed);
        match alias {
            Some(a) => {
                self.observe(a, pressed);
            },
            None => {
                assert(self.spec_events() =~= self.spec_events() + Seq::<EventView>::empty());
            },
        }
        proof {
            assert(self.spec_events() =~= old(self).spec_events() + observed_events(
                old(self).spec_buttons(),
                code_view,
                pressed,
            ) + match alias {
                Some(a) => observed_events(
                    old(self).spec_buttons().insert(code_view, state_after(pressed)),
                    a@,
                    pressed,
                ),
                None => Seq::empty(),
            });
        }
    }

    /// A key press or release: the key is known by `K` and its scancode,
    /// and by `key_name` where the key has one.
    pub fn key_event(&mut self, scancode: u32, key_name: Option<String>, pressed: bool)
        requires
            old(self).wf(),
        ensures
            final(self).wf(),
            Self::button_event_relation(
                *old(self),
                *final(self),
                "K"@ + crate::text::decimal(scancode as nat),
                match key_name {
                    Some(a) => Some(a@),
                    None => None,
                },
                pressed,
            ),
    {
        let code = labelled_number("K", scancode);
        self.button_event(code, key_name, pressed);
    }

    /// A mouse button press or release: the three main buttons are known by
    /// `MOUSE_1` to `MOUSE_3` and by their names, any other by `MOUSE_` and
    /// its number alone.
    pub fn mouse_button_event(&mut self, button: MouseButton, pressed: bool)
        requires
            old(self).wf(),
        ensures
            final(self).wf(),
            Self::button_event_relation(
                *old(self),
                *final(self),
                match button {
                    MouseButton::Left => "MOUSE_1"@,
                    MouseButton::Middle => "MOUSE_2"@,
                    MouseButton::Right => "MOUSE_3"@,
                    MouseButton::Other(n) => "MOUSE_"@ + crate::text::decimal(n as nat),
                },
                match button {
                    MouseButton::Left => Some("MOUSE_LEFT"@),
                    MouseButton::Middle => Some("MOUSE_MIDDLE"@),
                    MouseButton::Right => Some("MOUSE_RIGHT"@),
                    MouseButton::Other(_) => None,
                },
                pressed,
            ),
    {
        let (code, alias) = match button {
            MouseButton::Left => ("MOUSE_1".to_owned(), Some("MOUSE_LEFT".to_owned())),
            MouseButton::Middle => ("MOUSE_2".to_owned(), Some("MOUSE_MIDDLE".to_owned())),
            MouseButton::Right => ("MOUSE_3".to_owned(), Some("MOUSE_RIGHT".to_owned())),
            MouseButton::Other(n) => (labelled_number("MOUSE_", n as u32), None),
        };
        self.button_event(code, alias, pressed);
    }

    /// Scroll motion of `dx` and `dy` thousandths of a line. Motion adds up
    /// on each axis; once an axis holds at least a whole line either way, a
    /// scroll event reports the whole lines of each such axis, rounded
    /// toward zero, and those axes start again from zero.
    pub fn scroll_event(&mut self, dx: i32, dy: i32)
        requires
            old(self).wf(),
        ensures
            final(self).wf(),
            ({
                let ax = old(self).spec_scroll().0 + dx;
                let ay = old(self).spec_scroll().1 + dy;
                let fire_x = ax <= -SCROLL_UNIT || ax >= SCROLL_UNIT;
                let fire_y = ay <= -SCROLL_UNIT || ay >= SCROLL_UNIT;
                &&& final(self).spec_scroll() == (
                    (if fire_x { 0 } else { ax }) as i32,
                    (if fire_y { 0 } else { ay }) as i32,
                )
                &&& final(self).spec_events() == old(self).spec_events() + if fire_x || fire_y {
                    seq![EventView::Scroll {
                        x: (if fire_x { div_toward_zero(ax, SCROLL_UNIT as int) } else { 0 }) as i32,
                        y: (if fire_y { div_toward_zero(ay, SCROLL_UNIT as int) } else { 0 }) as i32,
                    }]
                } else {
                    Seq::empty()
                }
            }),
            final(self).spec_buttons() == old(self).spec_buttons(),
            final(self).spec_mouse() == old(self).spec_mouse(),
            final(self).spec_close_requested() == old(self).spec_close_requested(),
    {
        let ax = self.scroll_accumulator.0 as i64 + dx as i64;
        let ay = self.scroll_accumulator.1 as i64 + dy as i64;
        let unit = SCROLL_UNIT as i64;
        let fire_x = ax <= -unit || ax >= unit;
        let fire_y = ay <= -unit || ay >= unit;
        let lines_x: i32 = if !fire_x {
            0
        } else if ax >= 0 {
            (ax / unit) as i32
        } else {
            -((-ax / unit) as i32)
        };
        let lines_y: i32 = if !fire_y {
            0
        } else if ay >= 0 {
            (ay / unit) as i32
        } else {
            -((-ay / unit) as i32)
        };
        self.scroll_accumulator = (
            if fire_x { 0 } else { ax as i32 },
            if fire_y { 0 } else { ay as i32 },
        );
        if fire_x || fire_y {
            self.push_event(Event::Scroll { x: lines_x, y: lines_y });
        } else {
            assert(self.spec_events() =~= old(self).spec_events() + Seq::<EventView>::empty());
        }
    }

    /// A character typed into the window.
    pub fn text_event(&mut self, text: String)
        requires
            old(self).wf(),
        ensures
            final(self).wf(),
            final(self).spec_events() == old(self).spec_events().push(EventView::Text { text: text@ }),
            final(self).spec_buttons() == old(self).spec_buttons(),
            final(self).spec_mouse() == old(self).spec_mouse(),
            final(self).spec_scroll() == old(self).spec_scroll(),
            final(self).spec_close_requested() == old(self).spec_close_requested(),
    {
        self.push_event(Event::Text { text });
    }

    /// The pointer moved to `(x, y)` in window pixels.
    pub fn cursor_moved(&mut self, x: i32, y: i32)
        requires
            old(self).wf(),
        ensures
            final(self).wf(),
            final(self).spec_mouse() == (x, y),
            final(self).spec_events() == old(self).spec_events(),
            final(self).spec_buttons() == old(self).spec_buttons(),
            final(self).spec_scroll() == old(self).spec_scroll(),
            final(self).spec_close_requested() == old(self).spec_close_requested(),
    {
        self.mouse_position = (x, y);
    }

    /// The window was asked to close.
    pub fn request_close(&mut self)
        requires
            old(self).wf(),
        ensures
            final(self).wf(),
            final(self).spec_close_requested(),
            final(self).spec_mouse() == old(self).spec_mouse(),
            final(self).spec_events() == old(self).spec_events(),
            final(self).spec_buttons() == old(self).spec_buttons(),
            final(self).spec_scroll() == old(self).spec_scroll(),
    {
        self.close_requested = true;
    }

    /// Whether the window was asked to close.
    pub fn close_requested(&self) -> (r: bool)
        ensures
            r == self.spec_close_requested(),
    {
        self.close_requested
    }

    /// The pointer position in viewport tiles, for a window of
    /// `window_size` pixels: each coordinate scaled by the viewport's tiles
    /// over the window's pixels, rounded toward zero; zero on an axis where
    /// the window has no pixels, and limited to the range of `i32`.
    pub fn mouse_position(&self, window_size: (u32, u32), viewport: &Viewport) -> (r: (i32, i32))
        requires
            viewport.wf(),
        ensures
            r.0 == (if window_size.0 == 0 { 0 } else {
                saturate_i32(div_toward_zero(self.spec_mouse().0 * viewport.spec_width(), window_size.0 as int))
            }),
            r.1 == (if window_size.1 == 0 { 0 } else {
                saturate_i32(div_toward_zero(self.spec_mouse().1 * viewport.spec_height(), window_size.1 as int))
            }),
    {
        let (vw, vh) = viewport.get_dimensions();
        (
            scale_coordinate(self.mouse_position.0, vw, window_size.0),
            scale_coordinate(self.mouse_position.1, vh, window_size.1),
        )
    }

    /// Whether the button `name`, as given, is held.
    pub fn is_down(&self, name: &str) -> (r: bool)
        requires
            self.wf(),
        ensures
            r == self.spec_down(name@),
    {
        match self.button_states.get(name) {
            Some(state) => state == ButtonState::Down,
            None => false,
        }
    }

    /// Whether every button of `chord`, a list of names joined by `'+'`, is
    /// held; names are compared in upper case.
    pub fn button_down(&self, chord: &str) -> (r: bool)
        requires
            self.wf(),
        ensures
            r == self.spec_chord_down(chord@),
    {
        let n = chord.unicode_len();
        let ghost s = chord@;
        let mut all = true;
        let mut start: usize = 0;
        let mut i: usize = 0;
        proof {
            crate::text::lemma_split_plus_nonempty(s.take(0));
            assert(s.take(0) =~= Seq::<char>::empty());
        }
        while i < n
            invariant
                n == s.len(),
                s == chord@,
                self.wf(),
                start <= i <= n,
                split_plus(s.take(i as int)).len() >= 1,
                split_plus(s.take(i as int)).last() == s.subrange(start as int, i as int),
                all == forall|k: int|
                    0 <= k < split_plus(s.take(i as int)).len() - 1 ==> self.spec_down(
                        upper_of(#[trigger] split_plus(s.take(i as int))[k]),
                    ),
            decreases n - i,
        {
            let ghost before = split_plus(s.take(i as int));
            assert(s.take(i + 1).drop_last() =~= s.take(i as int));
            let c = chord.get_char(i);
            if c == '+' {
                let piece = chord.substring_char(start, i);
                let folded = uppercase(piece);
                let down = self.is_down(folded.as_str());
                proof {
                    let after = split_plus(s.take(i + 1));
                    assert(after == before.push(Seq::empty()));
                    assert forall|k: int| 0 <= k < after.len() - 1 implies #[trigger] after[k] == before[k] by {}
                    if all && down {
                        assert forall|k: int| 0 <= k < after.len() - 1 implies self.spec_down(
                            upper_of(#[trigger] after[k]),
                        ) by {
                            assert(after[k] == before[k]);
                        }
                    }
                    if !(all && down) {
                        if !down {
                            assert(after[before.len() - 1] == before.last());
                        } else {
                            let k = choose|k: int|
                                0 <= k < before.len() - 1 && !self.spec_down(upper_of(#[trigger] before[k]));
                            assert(after[k] == before[k]);
                        }
                    }
                    assert(s.subrange(i + 1, i + 1) =~= Seq::<char>::empty());
                }
                all = all && down;
                start = i + 1;
            } else {
                proof {
                    let after = split_plus(s.take(i + 1));
                    assert(after == before.update(before.len() - 1, before.last().push(c)));
                    assert(s.subrange(start as int, i + 1) =~= s.subrange(start as int, i as int).push(c));
                    assert forall|k: int| 0 <= k < after.len() - 1 implies #[trigger] after[k] == before[k] by {}
                    if !all {
                        let k = choose|k: int|
                            0 <= k < before.len() - 1 && !self.spec_down(upper_of(#[trigger] before[k]));
                        assert(after[k] == before[k]);
                    }
                }
            }
            i += 1;
        }
        let piece = chord.substring_char(start, n);
        let folded = uppercase(piece);
        let down = self.is_down(folded.as_str());
        proof {
            let parts = split_plus(s.take(n as int));
            assert(s.take(n as int) =~= s);
            if !down {
                assert(!self.spec_down(upper_of(parts[parts.len() - 1])));
            }
            if !all {
                let k = choose|k: int| 0 <= k < parts.len() - 1 && !self.spec_down(upper_of(#[trigger] parts[k]));
            }
        }
        all && down
    }

    /// Hands out the queued events, oldest first, and empties the queue.
    pub fn poll_events(&mut self) -> (r: Vec<Event>)
        requires
            old(self).wf(),
        ensures
            final(self).wf(),
            r@.map_values(|e: Event| e@) == old(self).spec_events(),
            final(self).spec_events() == Seq::<EventView>::empty(),
            final(self).spec_buttons() == old(self).spec_buttons(),
            final(self).spec_mouse() == old(self).spec_mouse(),
            final(self).spec_scroll() == old(self).spec_scroll(),
            final(self).spec_close_requested() == old(self).spec_close_requested(),
    {
        let r = self.events.split_off(0);
        assert(r@ =~= old(self).events@);
        assert(self.spec_events() =~= Seq::<EventView>::empty());
        r
    }
}

/// `v * tiles / pixels`, rounded toward zero and limited to `i32`, or zero
/// with no pixels.
fn scale_coordinate(v: i32, tiles: i32, pixels: u32) -> (r: i32)
    requires
        0 <= tiles <= 1024,
    ensures
        r == (if pixels == 0 { 0 } else { saturate_i32(div_toward_zero(v * tiles, pixels as int)) }),
{
    if pixels == 0 {
        return 0;
    }
    assert(-0x8000_0000 * 1024 <= v * tiles <= 0x7fff_ffff * 1024) by (nonlinear_arith)
        requires 0 <= tiles <= 1024, -0x8000_0000 <= v <= 0x7fff_ffff;
    let p = v as i64 * tiles as i64;
    let q: i64 = if p >= 0 {
        p / pixels as i64
    } else {
        proof {
            vstd::arithmetic::div_mod::lemma_div_is_ordered_by_denominator(-p as int, 1, pixels as int);
        }
        -((-p) / pixels as i64)
    };
    if q > i32::MAX as i64 {
        i32::MAX
    } else if q < i32::MIN as i64 {
        i32::MIN
    } else {
        q as i32
    }
}

} // verus!
