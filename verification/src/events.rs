use vstd::prelude::*;

use crate::input::{
    lemma_press_release_membership, lemma_release_keeps_order, other_than, spec_press, spec_release,
    Key, PressedKeys,
};

verus! {

/// Initial width of the window, in logical pixels.
pub const INITIAL_SCREEN_W: u32 = 800;

/// Initial height of the window, in logical pixels.
pub const INITIAL_SCREEN_H: u32 = 600;

/// The window size that the event loop shares with the renderer, and whether
/// the renderer has yet to take a change of it.
#[derive(Clone, Copy, Debug, PartialEq, Eq)]
pub struct WindowSize {
    pub width: u32,
    pub height: u32,
    pub resized: bool,
}

/// The shared size after the window was resized to `width` by `height`.
pub open spec fn spec_record_resize(width: u32, height: u32) -> WindowSize {
    WindowSize { width, height, resized: true }
}

/// What taking a pending change gives (the new size, if it changed) and
/// the shared size afterwards.
pub open spec fn spec_take_resize(s: WindowSize) -> (Option<(u32, u32)>, WindowSize) {
    (
        if s.resized {
            Some((s.width, s.height))
        } else {
            None
        },
        WindowSize { resized: false, ..s },
    )
}

impl WindowSize {
    /// A window of the given size, with no change pending.
    pub fn new(width: u32, height: u32) -> (r: WindowSize)
        ensures
            r == (WindowSize { width, height, resized: false }),
    {
        WindowSize { width, height, resized: false }
    }

    /// Records that the window now has the given size.
    pub fn record_resize(&mut self, width: u32, height: u32)
        ensures
            *final(self) == spec_record_resize(width, height),
    {
        self.width = width;
        self.height = height;
        self.resized = true;
    }

    /// The size to adapt to, if it changed since the last call; the change is
    /// then taken.
    pub fn take_resize(&mut self) -> (r: Option<(u32, u32)>)
        ensures
            (r, *final(self)) == spec_take_resize(*old(self)),
    {
        if self.resized {
            self.resized = false;
            Some((self.width, self.height))
        } else {
            None
        }
    }
}

/// A resize is taken once: right after it is recorded, taking it gives the
/// new size, and taking again gives nothing until the next resize.
pub proof fn lemma_resize_taken_once(width: u32, height: u32)
    ensures
        spec_take_resize(spec_record_resize(width, height)).0 == Some((width, height)),
        spec_take_resize(spec_take_resize(spec_record_resize(width, height)).1).0 is None,
        spec_take_resize(spec_record_resize(width, height)).1 == (WindowSize {
            width,
            height,
            resized: false,
        }),
{
}

/// The viewport extent for a window size, as OpenGL takes it (a size beyond
/// `i32::MAX` wraps as an `as` conversion does).
pub fn viewport_extent(width: u32, height: u32) -> (r: (i32, i32))
    ensures
        r == (width as i32, height as i32),
        width <= i32::MAX ==> r.0 as int == width as int,
        height <= i32::MAX ==> r.1 as int == height as int,
{
    (width as i32, height as i32)
}

/// A window event, as far as the event loop acts on it.
#[derive(Clone, Copy, Debug, PartialEq, Eq)]
pub enum InputEvent {
    /// The window was resized to the given physical size.
    Resized { width: u32, height: u32 },
    /// The user asked to close the window.
    CloseRequested,
    /// A key went down (`pressed`) or up.
    Keyboard { key: Key, pressed: bool },
    /// Anything else.
    Other,
}

/// What the event loop does after an event.
#[derive(Clone, Copy, Debug, PartialEq, Eq)]
pub enum Flow {
    /// Wait for the next event.
    Wait,
    /// Close the window and end the program.
    Exit,
}

/// The program ends after an event when the renderer has stopped, when the
/// window is to close, or when Escape goes down or up.
pub open spec fn exit_requested(render_healthy: bool, event: InputEvent) -> bool {
    ||| !render_healthy
    ||| event is CloseRequested
    ||| event matches InputEvent::Keyboard { key: Key::Escape, .. }
}

/// The held keys after an event.
pub open spec fn keys_after(keys: Seq<Key>, event: InputEvent) -> Seq<Key> {
    match event {
        InputEvent::Keyboard { key, pressed } => if pressed {
            spec_press(keys, key)
        } else {
            spec_release(keys, key)
        },
        _ => keys,
    }
}

/// The shared window size after an event.
pub open spec fn size_after(size: WindowSize, event: InputEvent) -> WindowSize {
    match event {
        InputEvent::Resized { width, height } => spec_record_resize(width, height),
        _ => size,
    }
}

/// Handles one window event: keeps the held keys and the window size up to
/// date and says whether the program goes on.
pub fn handle_event(
    keys: &mut PressedKeys,
    size: &mut WindowSize,
    render_healthy: bool,
    event: InputEvent,
) -> (flow: Flow)
    ensures
        flow == (if exit_requested(render_healthy, event) {
            Flow::Exit
        } else {
            Flow::Wait
        }),
        final(keys)@ == keys_after(old(keys)@, event),
        *final(size) == size_after(*old(size), event),
{
    let mut flow = Flow::Wait;
    if !render_healthy {
        flow = Flow::Exit;
    }
    match event {
        InputEvent::Resized { width, height } => {
            size.record_resize(width, height);
        },
        InputEvent::CloseRequested => {
            flow = Flow::Exit;
        },
        InputEvent::Keyboard { key, pressed } => {
            if pressed {
                keys.press(key);
            } else {
                keys.release(key);
            }
            match key {
                Key::Escape => {
                    flow = Flow::Exit;
                },
                _ => {},
            }
        },
        InputEvent::Other => {},
    }
    flow
}

/// The program ends exactly when the renderer has stopped, the window is to
/// close, or Escape goes down or up: with the renderer running, no other key
/// and no other event ends it.
pub proof fn lemma_exit_only_for_escape_close_or_stop(render_healthy: bool, event: InputEvent)
    ensures
        exit_requested(render_healthy, event) <==> (!render_healthy || event
            == InputEvent::CloseRequested || event == (InputEvent::Keyboard {
            key: Key::Escape,
            pressed: true,
        }) || event == (InputEvent::Keyboard { key: Key::Escape, pressed: false })),
        forall|key: Key, pressed: bool|
            key != Key::Escape ==> !#[trigger] exit_requested(true, InputEvent::Keyboard { key, pressed }),
{
}

/// What an event does to the held keys: a key going down is held after it,
/// a key going up is not, every other key is held exactly when it was, and
/// the keys still held keep the order they were pressed in. Events other
/// than keys leave the held keys alone.
pub proof fn lemma_event_changes_only_its_key(keys: Seq<Key>, event: InputEvent, x: Key)
    requires
        keys.no_duplicates(),
    ensures
        match event {
            InputEvent::Keyboard { key, pressed } => {
                &&& (x != key ==> (keys_after(keys, event).contains(x) <==> keys.contains(x)))
                &&& keys_after(keys, event).contains(key) == pressed
                &&& !pressed ==> keys_after(keys, event) == keys.filter(other_than(key))
            },
            _ => keys_after(keys, event) == keys,
        },
{
    match event {
        InputEvent::Keyboard { key, pressed } => {
            lemma_press_release_membership(keys, key, x);
            lemma_press_release_membership(keys, key, key);
            lemma_release_keeps_order(keys, key);
        },
        _ => {},
    }
}

/// A resize event records the new size as a pending change; every other
/// event leaves the shared size as it was.
pub proof fn lemma_event_changes_size_only_on_resize(size: WindowSize, event: InputEvent)
    ensures
        match event {
            InputEvent::Resized { width, height } => size_after(size, event) == (WindowSize {
                width,
                height,
                resized: true,
            }),
            _ => size_after(size, event) == size,
        },
{
}

} // verus!
