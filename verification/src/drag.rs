//! Drag gesture recognition as a pure state machine: mouse press, move and
//! release events come in as plain values, and the handler decides which
//! widget-bound drag events to emit. The host's event loop performs the
//! actual input reading and event delivery.

use vstd::prelude::*;
use crate::geom::Point;

verus! {

/// Whether a mouse button went down or up.
#[derive(Clone, Copy, PartialEq, Eq, Structural, Debug)]
pub enum ElementState {
    Pressed,
    Released,
}

/// Which mouse button an event is about.
#[derive(Clone, Copy, PartialEq, Eq, Structural, Debug)]
pub enum MouseButtonKind {
    Left,
    Right,
    Middle,
    Other(u8),
}

/// A mouse button event delivered to the UI as a whole.
#[derive(Clone, Copy, PartialEq, Eq, Structural, Debug)]
pub struct MouseButton(pub ElementState, pub MouseButtonKind);

/// A mouse button event already routed to one widget.
#[derive(Clone, Copy, PartialEq, Eq, Structural, Debug)]
pub struct WidgetMouseButton(pub ElementState, pub MouseButtonKind);

/// The pointer moved to a new position.
#[derive(Clone, Copy, PartialEq, Eq, Structural, Debug)]
pub struct MouseMoved(pub Point);

/// The phase of a drag gesture, as delivered to the dragged widget.
#[derive(Clone, Copy, PartialEq, Eq, Structural, Debug)]
pub enum DragEvent {
    DragStart,
    Drag,
    DragEnd,
}

/// A drag notification for a widget: the phase and the pointer position.
#[derive(Clone, Copy, PartialEq, Eq, Structural, Debug)]
pub struct WidgetDrag {
    pub drag_type: DragEvent,
    pub position: Point,
}

/// The inputs the drag recognizer consumes.
#[derive(Clone, Copy, PartialEq, Eq, Structural, Debug)]
pub enum DragInputEvent {
    /// A draggable widget was pressed.
    WidgetPressed(u64),
    /// The pointer moved.
    MouseMoved(Point),
    /// Any mouse button was released.
    MouseReleased,
}

/// The drag recognizer: remembers which widget, if any, a drag is active
/// on, and the last pointer position.
pub struct DragInputHandler {
    pub widget: Option<u64>,
    pub position: Point,
}

impl DragInputHandler {
    pub fn new() -> (h: DragInputHandler)
        ensures
            h.widget is None,
            h.position == (Point { x: 0, y: 0 }),
    {
        DragInputHandler { widget: None, position: Point { x: 0, y: 0 } }
    }

    /// Consumes one input event; every drag notification owed to a widget
    /// is appended to `queue` as a (widget id, notification) pair.
    ///
    /// A press starts a drag on the pressed widget; a move during a drag
    /// notifies the dragged widget; a release ends the drag. Moves and
    /// releases outside a drag update only the remembered position.
    pub fn handle(&mut self, event: &DragInputEvent, queue: &mut Vec<(u64, WidgetDrag)>)
        ensures
            match *event {
                DragInputEvent::WidgetPressed(id) => final(self).widget == Some(id) && final(self).position
                    == old(self).position && final(queue)@ == old(queue)@.push(
                    (
                        id,
                        WidgetDrag {
                            drag_type: DragEvent::DragStart,
                            position: old(self).position,
                        },
                    ),
                ),
                DragInputEvent::MouseReleased => final(self).widget is None && final(self).position
                    == old(self).position && match old(self).widget {
                    Some(id) => final(queue)@ == old(queue)@.push(
                        (
                            id,
                            WidgetDrag {
                                drag_type: DragEvent::DragEnd,
                                position: old(self).position,
                            },
                        ),
                    ),
                    None => final(queue)@ == old(queue)@,
                },
                DragInputEvent::MouseMoved(point) => final(self).widget == old(self).widget
                    && final(self).position == point && match old(self).widget {
                    Some(id) => final(queue)@ == old(queue)@.push(
                        (id, WidgetDrag { drag_type: DragEvent::Drag, position: point }),
                    ),
                    None => final(queue)@ == old(queue)@,
                },
            },
    {
        match *event {
            DragInputEvent::WidgetPressed(id) => {
                self.widget = Some(id);
                queue.push(
                    (id, WidgetDrag { drag_type: DragEvent::DragStart, position: self.position }),
                );
            },
            DragInputEvent::MouseReleased => {
                match self.widget {
                    Some(id) => {
                        self.widget = None;
                        queue.push(
                            (
                                id,
                                WidgetDrag {
                                    drag_type: DragEvent::DragEnd,
                                    position: self.position,
                                },
                            ),
                        );
                    },
                    None => {},
                }
            },
            DragInputEvent::MouseMoved(point) => {
                self.position = point;
                match self.widget {
                    Some(id) => {
                        queue.push(
                            (id, WidgetDrag { drag_type: DragEvent::Drag, position: point }),
                        );
                    },
                    None => {},
                }
            },
        }
    }
}

/// Routes a widget-level mouse press into the drag recognizer's input
/// queue: only a press starts a drag.
pub fn drag_handle_mouse_press(event: &WidgetMouseButton, widget_id: u64, queue: &mut Vec<
    DragInputEvent,
>)
    ensures
        final(queue)@ == match event.0 {
            ElementState::Pressed => old(queue)@.push(DragInputEvent::WidgetPressed(widget_id)),
            ElementState::Released => old(queue)@,
        },
{
    match event.0 {
        ElementState::Pressed => {
            queue.push(DragInputEvent::WidgetPressed(widget_id));
        },
        ElementState::Released => {},
    }
}

/// Routes a pointer move into the drag recognizer's input queue.
pub fn drag_handle_mouse_move(event: &MouseMoved, queue: &mut Vec<DragInputEvent>)
    ensures
        final(queue)@ == old(queue)@.push(DragInputEvent::MouseMoved(event.0)),
{
    queue.push(DragInputEvent::MouseMoved(event.0));
}

/// Routes a mouse release into the drag recognizer's input queue: only a
/// release ends a drag.
pub fn drag_handle_mouse_release(event: &MouseButton, queue: &mut Vec<DragInputEvent>)
    ensures
        final(queue)@ == match event.0 {
            ElementState::Released => old(queue)@.push(DragInputEvent::MouseReleased),
            ElementState::Pressed => old(queue)@,
        },
{
    match event.0 {
        ElementState::Released => {
            queue.push(DragInputEvent::MouseReleased);
        },
        ElementState::Pressed => {},
    }
}

/// The event handlers a widget under construction has registered.
#[derive(Clone, Copy, PartialEq, Eq, Structural, Debug)]
pub enum HandlerKind {
    /// The mouse-press handler that makes the widget start drags.
    DragMousePress,
}

/// A widget under construction: the list of handlers it will carry.
pub struct WidgetBuilder {
    pub handlers: Vec<HandlerKind>,
}

impl WidgetBuilder {
    pub fn new() -> (b: WidgetBuilder)
        ensures
            b.handlers@.len() == 0,
    {
        WidgetBuilder { handlers: Vec::new() }
    }

    /// Registers the drag mouse-press handler, so that pressing the widget
    /// starts a drag gesture on it.
    pub fn make_draggable(&mut self)
        ensures
            final(self).handlers@ == old(self).handlers@.push(HandlerKind::DragMousePress),
    {
        self.handlers.push(HandlerKind::DragMousePress);
    }
}

} // verus!
