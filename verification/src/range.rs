//! A two-field editor for a numeric interval.
//!
//! The editor owns two numeric fields, one for each bound. It keeps them in
//! step with its own value and refuses an edit of one bound that would cross
//! the other. The editor never sends anything itself: reacting to a message
//! yields the messages that the user interface is to deliver next.

use crate::handle::ErasedHandle;
use std::ops::Range;
use vstd::prelude::*;

verus! {

/// Flag of a message that only brings a field back in step and must not be
/// answered.
pub const SYNC_FLAG: u64 = 1;

/// A number that a bound of the interval can hold.
pub trait NumericType: Copy + Sized {
    /// The strict order of the numbers.
    spec fn below(self, other: Self) -> bool;

    /// The value of a bound that was never set.
    spec fn origin() -> Self;

    fn is_below(self, other: Self) -> (b: bool)
        ensures
            b == self.below(other),
    ;

    fn is_same(self, other: Self) -> (b: bool)
        ensures
            b == (self == other),
    ;

    fn zero() -> (z: Self)
        ensures
            z == Self::origin(),
    ;
}

impl NumericType for i32 {
    open spec fn below(self, other: i32) -> bool {
        self < other
    }

    open spec fn origin() -> i32 {
        0
    }

    fn is_below(self, other: i32) -> (b: bool) {
        self < other
    }

    fn is_same(self, other: i32) -> (b: bool) {
        self == other
    }

    fn zero() -> (z: i32) {
        0
    }
}

impl NumericType for i64 {
    open spec fn below(self, other: i64) -> bool {
        self < other
    }

    open spec fn origin() -> i64 {
        0
    }

    fn is_below(self, other: i64) -> (b: bool) {
        self < other
    }

    fn is_same(self, other: i64) -> (b: bool) {
        self == other
    }

    fn zero() -> (z: i64) {
        0
    }
}

impl NumericType for u32 {
    open spec fn below(self, other: u32) -> bool {
        self < other
    }

    open spec fn origin() -> u32 {
        0
    }

    fn is_below(self, other: u32) -> (b: bool) {
        self < other
    }

    fn is_same(self, other: u32) -> (b: bool) {
        self == other
    }

    fn zero() -> (z: u32) {
        0
    }
}

impl NumericType for u64 {
    open spec fn below(self, other: u64) -> bool {
        self < other
    }

    open spec fn origin() -> u64 {
        0
    }

    fn is_below(self, other: u64) -> (b: bool) {
        self < other
    }

    fn is_same(self, other: u64) -> (b: bool) {
        self == other
    }

    fn zero() -> (z: u64) {
        0
    }
}

/// Whether a message travels to the widget it names or comes from it.
#[derive(Clone, Copy, Debug, PartialEq, Eq, Structural)]
pub enum MessageDirection {
    ToWidget,
    FromWidget,
}

impl MessageDirection {
    pub open spec fn reversed(self) -> MessageDirection {
        match self {
            MessageDirection::ToWidget => MessageDirection::FromWidget,
            MessageDirection::FromWidget => MessageDirection::ToWidget,
        }
    }

    pub fn reverse(self) -> (d: MessageDirection)
        ensures
            d == self.reversed(),
    {
        match self {
            MessageDirection::ToWidget => MessageDirection::FromWidget,
            MessageDirection::FromWidget => MessageDirection::ToWidget,
        }
    }
}

/// What a numeric field says or is told.
#[derive(Debug, PartialEq)]
pub enum NumericUpDownMessage<T: NumericType> {
    Value(T),
}

/// What an interval editor says or is told.
#[derive(Debug, PartialEq)]
pub enum RangeEditorMessage<T: NumericType> {
    Value(Range<T>),
}

/// The payload of a message.
#[derive(Debug, PartialEq)]
pub enum UiMessageData<T: NumericType> {
    Range(RangeEditorMessage<T>),
    Numeric(NumericUpDownMessage<T>),
    Other,
}

/// A message addressed to one widget.
#[derive(Debug, PartialEq)]
pub struct UiMessage<T: NumericType> {
    pub destination: ErasedHandle,
    pub direction: MessageDirection,
    pub flags: u64,
    pub data: UiMessageData<T>,
}

impl<T: NumericType> UiMessage<T> {
    /// The same message travelling the other way.
    pub open spec fn reversed(self) -> UiMessage<T> {
        UiMessage {
            destination: self.destination,
            direction: self.direction.reversed(),
            flags: self.flags,
            data: self.data,
        }
    }

    pub fn reverse(&self) -> (m: UiMessage<T>)
        ensures
            m == self.reversed(),
    {
        let data = match &self.data {
            UiMessageData::Range(RangeEditorMessage::Value(r)) => UiMessageData::Range(
                RangeEditorMessage::Value(Range { start: r.start, end: r.end }),
            ),
            UiMessageData::Numeric(NumericUpDownMessage::Value(v)) => UiMessageData::Numeric(
                NumericUpDownMessage::Value(*v),
            ),
            UiMessageData::Other => UiMessageData::Other,
        };
        UiMessage {
            destination: self.destination,
            direction: self.direction.reverse(),
            flags: self.flags,
            data,
        }
    }
}

impl<T: NumericType> NumericUpDownMessage<T> {
    pub open spec fn value_spec(
        destination: ErasedHandle,
        direction: MessageDirection,
        value: T,
    ) -> UiMessage<T> {
        UiMessage {
            destination,
            direction,
            flags: 0,
            data: UiMessageData::Numeric(NumericUpDownMessage::Value(value)),
        }
    }

    /// The message that carries `value` to or from a numeric field.
    pub fn value(destination: ErasedHandle, direction: MessageDirection, value: T) -> (m: UiMessage<
        T,
    >)
        ensures
            m == Self::value_spec(destination, direction, value),
    {
        UiMessage {
            destination,
            direction,
            flags: 0,
            data: UiMessageData::Numeric(NumericUpDownMessage::Value(value)),
        }
    }
}

impl<T: NumericType> RangeEditorMessage<T> {
    pub open spec fn value_spec(
        destination: ErasedHandle,
        direction: MessageDirection,
        value: Range<T>,
    ) -> UiMessage<T> {
        UiMessage {
            destination,
            direction,
            flags: 0,
            data: UiMessageData::Range(RangeEditorMessage::Value(value)),
        }
    }

    /// The message that carries `value` to or from an interval editor.
    pub fn value(destination: ErasedHandle, direction: MessageDirection, value: Range<T>) -> (m:
        UiMessage<T>)
        ensures
            m == Self::value_spec(destination, direction, value),
    {
        UiMessage {
            destination,
            direction,
            flags: 0,
            data: UiMessageData::Range(RangeEditorMessage::Value(value)),
        }
    }
}

/// What every widget has: its own handle and the handles of its children.
#[derive(Debug)]
pub struct Widget {
    pub handle: ErasedHandle,
    pub children: Vec<ErasedHandle>,
}

/// Collects what a widget is made with.
#[derive(Debug)]
pub struct WidgetBuilder {
    pub children: Vec<ErasedHandle>,
}

impl WidgetBuilder {
    pub fn new() -> (b: WidgetBuilder)
        ensures
            b.children@ == Seq::<ErasedHandle>::empty(),
    {
        WidgetBuilder { children: Vec::new() }
    }

    pub fn with_child(self, child: ErasedHandle) -> (b: WidgetBuilder)
        ensures
            b.children@ == self.children@.push(child),
    {
        let mut b = self;
        b.children.push(child);
        b
    }

    /// The widget, not yet registered anywhere.
    pub fn build(self) -> (w: Widget)
        ensures
            w.handle == ErasedHandle::none_spec(),
            w.children@ == self.children@,
    {
        Widget { handle: ErasedHandle::none(), children: self.children }
    }
}

/// An editor of an interval, with the fields that show its two bounds.
#[derive(Debug)]
pub struct RangeEditor<T: NumericType> {
    pub widget: Widget,
    pub value: Range<T>,
    pub start: ErasedHandle,
    pub end: ErasedHandle,
}

/// What the editor is after a message, and what it sends in answer.
pub struct Reaction<T: NumericType> {
    pub value: Range<T>,
    pub sent: Seq<UiMessage<T>>,
}

impl<T: NumericType> RangeEditor<T> {
    /// The message that puts a field back to `value` without asking for an
    /// answer.
    pub open spec fn sync_message(field: ErasedHandle, value: T) -> UiMessage<T> {
        UiMessage {
            destination: field,
            direction: MessageDirection::ToWidget,
            flags: SYNC_FLAG,
            data: UiMessageData::Numeric(NumericUpDownMessage::Value(value)),
        }
    }

    /// The editor's answer to a new interval addressed to it.
    pub open spec fn on_range(self, message: UiMessage<T>, range: Range<T>) -> Reaction<T> {
        if message.destination == self.widget.handle && self.value != range {
            Reaction {
                value: range,
                sent: seq![
                    NumericUpDownMessage::value_spec(
                        self.start,
                        MessageDirection::ToWidget,
                        range.start,
                    ),
                    NumericUpDownMessage::value_spec(
                        self.end,
                        MessageDirection::ToWidget,
                        range.end,
                    ),
                    message.reversed(),
                ],
            }
        } else {
            Reaction { value: self.value, sent: Seq::empty() }
        }
    }

    /// The editor's answer to an edit of one of its two fields: the edit is
    /// taken over where it keeps the lower bound below the upper one, and the
    /// field is put back to the other bound where it does not.
    pub open spec fn on_number(self, message: UiMessage<T>, number: T) -> Reaction<T> {
        let sent = if message.destination == self.start {
            if number.below(self.value.end) {
                seq![
                    RangeEditorMessage::value_spec(
                        self.widget.handle,
                        MessageDirection::ToWidget,
                        Range { start: number, end: self.value.end },
                    ),
                ]
            } else {
                seq![Self::sync_message(self.start, self.value.end)]
            }
        } else if message.destination == self.end {
            if self.value.start.below(number) {
                seq![
                    RangeEditorMessage::value_spec(
                        self.widget.handle,
                        MessageDirection::ToWidget,
                        Range { start: self.value.start, end: number },
                    ),
                ]
            } else {
                seq![Self::sync_message(self.end, self.value.start)]
            }
        } else {
            Seq::empty()
        };
        Reaction { value: self.value, sent }
    }

    /// The editor's answer to any message. Only a message on its way to a
    /// widget that does not carry the sync flag is looked at.
    pub open spec fn react(self, message: UiMessage<T>) -> Reaction<T> {
        if message.direction == MessageDirection::ToWidget && message.flags != SYNC_FLAG {
            match message.data {
                UiMessageData::Range(RangeEditorMessage::Value(range)) => self.on_range(
                    message,
                    range,
                ),
                UiMessageData::Numeric(NumericUpDownMessage::Value(number)) => self.on_number(
                    message,
                    number,
                ),
                UiMessageData::Other => Reaction { value: self.value, sent: Seq::empty() },
            }
        } else {
            Reaction { value: self.value, sent: Seq::empty() }
        }
    }

    /// Handles one routed message. The editor's value becomes what `react`
    /// gives, nothing else of it changes, and the messages to deliver next
    /// are returned in the order in which they are to be sent.
    pub fn handle_routed_message(&mut self, message: &UiMessage<T>) -> (sent: Vec<UiMessage<T>>)
        ensures
            final(self).value == old(self).react(*message).value,
            sent@ == old(self).react(*message).sent,
            final(self).widget == old(self).widget,
            final(self).start == old(self).start,
            final(self).end == old(self).end,
    {
        let mut sent: Vec<UiMessage<T>> = Vec::new();
        if message.direction == MessageDirection::ToWidget && message.flags != SYNC_FLAG {
            match &message.data {
                UiMessageData::Range(RangeEditorMessage::Value(range)) => {
                    let unchanged = self.value.start.is_same(range.start) && self.value.end.is_same(
                        range.end,
                    );
                    if message.destination == self.widget.handle && !unchanged {
                        self.value = Range { start: range.start, end: range.end };
                        sent.push(
                            NumericUpDownMessage::value(
                                self.start,
                                MessageDirection::ToWidget,
                                range.start,
                            ),
                        );
                        sent.push(
                            NumericUpDownMessage::value(
                                self.end,
                                MessageDirection::ToWidget,
                                range.end,
                            ),
                        );
                        sent.push(message.reverse());
                    }
                },
                UiMessageData::Numeric(NumericUpDownMessage::Value(number)) => {
                    if message.destination == self.start {
                        if number.is_below(self.value.end) {
                            sent.push(
                                RangeEditorMessage::value(
                                    self.widget.handle,
                                    MessageDirection::ToWidget,
                                    Range { start: *number, end: self.value.end },
                                ),
                            );
                        } else {
                            let mut back = NumericUpDownMessage::value(
                                self.start,
                                MessageDirection::ToWidget,
                                self.value.end,
                            );
                            back.flags = SYNC_FLAG;
                            sent.push(back);
                        }
                    } else if message.destination == self.end {
                        if self.value.start.is_below(*number) {
                            sent.push(
                                RangeEditorMessage::value(
                                    self.widget.handle,
                                    MessageDirection::ToWidget,
                                    Range { start: self.value.start, end: *number },
                                ),
                            );
                        } else {
                            let mut back = NumericUpDownMessage::value(
                                self.end,
                                MessageDirection::ToWidget,
                                self.value.start,
                            );
                            back.flags = SYNC_FLAG;
                            sent.push(back);
                        }
                    }
                },
                UiMessageData::Other => {},
            }
        }
        assert(sent@ =~= old(self).react(*message).sent);
        sent
    }
}

/// A node of the user interface as the build context keeps it.
#[derive(Debug)]
pub enum UiNode<T: NumericType> {
    /// A line of text.
    Text(String),
    /// A numeric field showing a value.
    NumericUpDown(T),
    /// A one-row grid laying out its children from left to right.
    Grid(Vec<ErasedHandle>),
    /// An interval editor.
    RangeEditor(RangeEditor<T>),
}

/// The place where widgets are registered while an interface is built.
/// A widget's handle is its position in the order of registration.
#[derive(Debug)]
pub struct BuildContext<T: NumericType> {
    nodes: Vec<UiNode<T>>,
}

impl<T: NumericType> View for BuildContext<T> {
    type V = Seq<UiNode<T>>;

    closed spec fn view(&self) -> Seq<UiNode<T>> {
        self.nodes@
    }
}

/// The handle of the widget registered at `position`.
pub open spec fn handle_at(position: int) -> ErasedHandle {
    ErasedHandle { index: position as u32, generation: 1 }
}

/// `node` as it stands in the context once it has been registered under
/// `handle`: an interval editor learns its own handle, any other node is
/// kept as it is.
pub open spec fn registered<T: NumericType>(node: UiNode<T>, handle: ErasedHandle) -> UiNode<T> {
    match node {
        UiNode::RangeEditor(editor) => UiNode::RangeEditor(
            RangeEditor {
                widget: Widget { handle, children: editor.widget.children },
                value: editor.value,
                start: editor.start,
                end: editor.end,
            },
        ),
        _ => node,
    }
}

impl<T: NumericType> BuildContext<T> {
    pub fn new() -> (ctx: BuildContext<T>)
        ensures
            ctx@ == Seq::<UiNode<T>>::empty(),
    {
        BuildContext { nodes: Vec::new() }
    }

    /// The number of widgets registered so far.
    pub fn len(&self) -> (n: usize)
        ensures
            n == self@.len(),
    {
        self.nodes.len()
    }

    /// Registers a widget and returns its handle.
    pub fn add_node(&mut self, node: UiNode<T>) -> (handle: ErasedHandle)
        requires
            old(self)@.len() < u32::MAX,
        ensures
            handle == handle_at(old(self)@.len() as int),
            final(self)@ == old(self)@.push(registered(node, handle)),
    {
        let handle = ErasedHandle::new(self.nodes.len() as u32, 1);
        let node = match node {
            UiNode::RangeEditor(editor) => UiNode::RangeEditor(
                RangeEditor {
                    widget: Widget { handle, children: editor.widget.children },
                    value: editor.value,
                    start: editor.start,
                    end: editor.end,
                },
            ),
            other => other,
        };
        self.nodes.push(node);
        handle
    }

    /// The widget registered under `handle`, if there is one.
    pub fn try_get(&self, handle: ErasedHandle) -> (node: Option<&UiNode<T>>)
        ensures
            node matches Some(n) ==> handle.index < self@.len() && handle.generation == 1 && *n
                == self@[handle.index as int],
            node is None <==> !(handle.index < self@.len() && handle.generation == 1),
    {
        if handle.generation == 1 && (handle.index as usize) < self.nodes.len() {
            Some(&self.nodes[handle.index as usize])
        } else {
            None
        }
    }
}

/// Collects what an interval editor is made with.
#[derive(Debug)]
pub struct RangeEditorBuilder<T: NumericType> {
    pub widget_builder: WidgetBuilder,
    pub value: Range<T>,
}

impl<T: NumericType> RangeEditorBuilder<T> {
    /// A builder of an editor whose two bounds are at the origin.
    pub fn new(widget_builder: WidgetBuilder) -> (b: RangeEditorBuilder<T>)
        ensures
            b.widget_builder == widget_builder,
            b.value == (Range { start: T::origin(), end: T::origin() }),
    {
        RangeEditorBuilder { widget_builder, value: Range { start: T::zero(), end: T::zero() } }
    }

    pub fn with_value(self, value: Range<T>) -> (b: RangeEditorBuilder<T>)
        ensures
            b.widget_builder == self.widget_builder,
            b.value == value,
    {
        let mut b = self;
        b.value = value;
        b
    }

    /// What `build` registers, in order, when `n` widgets were there before:
    /// the caption of the lower bound and its field, the caption of the upper
    /// bound and its field, the grid that holds the four, and the editor
    /// itself, whose children are those of its widget builder and the grid.
    pub open spec fn parts(self, n: int, nodes: Seq<UiNode<T>>) -> bool {
        &&& nodes.len() == 6
        &&& nodes[0] matches UiNode::Text(caption) && caption@ == "Start"@
        &&& nodes[1] == UiNode::NumericUpDown(self.value.start)
        &&& nodes[2] matches UiNode::Text(caption) && caption@ == "End"@
        &&& nodes[3] == UiNode::NumericUpDown(self.value.end)
        &&& nodes[4] matches UiNode::Grid(cells) && cells@ == seq![
            handle_at(n),
            handle_at(n + 1),
            handle_at(n + 2),
            handle_at(n + 3),
        ]
        &&& nodes[5] matches UiNode::RangeEditor(editor) && {
            &&& editor.widget.handle == handle_at(n + 5)
            &&& editor.widget.children@ == self.widget_builder.children@.push(handle_at(n + 4))
            &&& editor.value == self.value
            &&& editor.start == handle_at(n + 1)
            &&& editor.end == handle_at(n + 3)
        }
    }

    /// Registers the editor and the widgets it is made of, and returns the
    /// editor's handle. What was registered before stays as it was.
    pub fn build(self, ctx: &mut BuildContext<T>) -> (handle: ErasedHandle)
        requires
            old(ctx)@.len() + 6 <= u32::MAX,
        ensures
            final(ctx)@.len() == old(ctx)@.len() + 6,
            final(ctx)@.subrange(0, old(ctx)@.len() as int) == old(ctx)@,
            self.parts(
                old(ctx)@.len() as int,
                final(ctx)@.subrange(old(ctx)@.len() as int, final(ctx)@.len() as int),
            ),
            handle == handle_at(old(ctx)@.len() as int + 5),
    {
        let ghost n = ctx@.len() as int;
        let start_caption = ctx.add_node(UiNode::Text("Start".to_owned()));
        let start = ctx.add_node(UiNode::NumericUpDown(self.value.start));
        let end_caption = ctx.add_node(UiNode::Text("End".to_owned()));
        let end = ctx.add_node(UiNode::NumericUpDown(self.value.end));
        let mut cells: Vec<ErasedHandle> = Vec::new();
        cells.push(start_caption);
        cells.push(start);
        cells.push(end_caption);
        cells.push(end);
        assert(cells@ =~= seq![handle_at(n), handle_at(n + 1), handle_at(n + 2), handle_at(n + 3)]);
        let grid = ctx.add_node(UiNode::Grid(cells));
        let ghost children = self.widget_builder.children@;
        let editor = RangeEditor {
            widget: self.widget_builder.with_child(grid).build(),
            value: Range { start: self.value.start, end: self.value.end },
            start,
            end,
        };
        let handle = ctx.add_node(UiNode::RangeEditor(editor));
        proof {
            let added = ctx@.subrange(n, ctx@.len() as int);
            assert(ctx@.subrange(0, n) =~= old(ctx)@);
            assert(added.len() == 6);
            assert(added[0] == ctx@[n]);
            assert(added[1] == ctx@[n + 1]);
            assert(added[2] == ctx@[n + 2]);
            assert(added[3] == ctx@[n + 3]);
            assert(added[4] == ctx@[n + 4]);
            assert(added[5] == ctx@[n + 5]);
        }
        handle
    }
}

} // verus!
