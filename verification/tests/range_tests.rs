use scene_editing::handle::ErasedHandle;
use scene_editing::range::{
    BuildContext, MessageDirection, NumericType, NumericUpDownMessage, RangeEditor,
    RangeEditorBuilder, RangeEditorMessage, UiMessage, UiMessageData, UiNode, Widget,
    WidgetBuilder, SYNC_FLAG,
};

fn handle(index: u32) -> ErasedHandle {
    ErasedHandle::new(index, 1)
}

fn editor() -> RangeEditor<i32> {
    RangeEditor {
        widget: Widget { handle: handle(5), children: vec![handle(4)] },
        value: 10..20,
        start: handle(1),
        end: handle(3),
    }
}

fn sync(field: ErasedHandle, value: i32) -> UiMessage<i32> {
    UiMessage {
        destination: field,
        direction: MessageDirection::ToWidget,
        flags: SYNC_FLAG,
        data: UiMessageData::Numeric(NumericUpDownMessage::Value(value)),
    }
}

#[test]
fn value_messages_carry_their_payload() {
    let message = RangeEditorMessage::value(handle(5), MessageDirection::ToWidget, 1..2);
    assert_eq!(message.destination, handle(5));
    assert_eq!(message.direction, MessageDirection::ToWidget);
    assert_eq!(message.flags, 0);
    assert_eq!(message.data, UiMessageData::Range(RangeEditorMessage::Value(1..2)));
    let number = NumericUpDownMessage::value(handle(1), MessageDirection::FromWidget, 7i64);
    assert_eq!(number.data, UiMessageData::Numeric(NumericUpDownMessage::Value(7)));
    assert_eq!(number.direction, MessageDirection::FromWidget);
}

#[test]
fn reversing_a_message_turns_its_direction_only() {
    let message = RangeEditorMessage::value(handle(5), MessageDirection::ToWidget, 1..2);
    let reversed = message.reverse();
    assert_eq!(reversed.direction, MessageDirection::FromWidget);
    assert_eq!(reversed.destination, message.destination);
    assert_eq!(reversed.data, message.data);
    assert_eq!(reversed.reverse(), message);
    assert_eq!(MessageDirection::FromWidget.reverse(), MessageDirection::ToWidget);
}

#[test]
fn a_new_range_updates_both_fields_and_is_answered() {
    let mut editor = editor();
    let message = RangeEditorMessage::value(handle(5), MessageDirection::ToWidget, 12..18);
    let sent = editor.handle_routed_message(&message);
    assert_eq!(editor.value, 12..18);
    assert_eq!(
        sent,
        vec![
            NumericUpDownMessage::value(handle(1), MessageDirection::ToWidget, 12),
            NumericUpDownMessage::value(handle(3), MessageDirection::ToWidget, 18),
            RangeEditorMessage::value(handle(5), MessageDirection::FromWidget, 12..18),
        ]
    );
}

#[test]
fn the_same_range_or_another_destination_changes_nothing() {
    let mut editor = editor();
    let same = RangeEditorMessage::value(handle(5), MessageDirection::ToWidget, 10..20);
    assert!(editor.handle_routed_message(&same).is_empty());
    let elsewhere = RangeEditorMessage::value(handle(6), MessageDirection::ToWidget, 1..2);
    assert!(editor.handle_routed_message(&elsewhere).is_empty());
    assert_eq!(editor.value, 10..20);
}

#[test]
fn a_lower_bound_below_the_upper_one_is_taken_over() {
    let mut editor = editor();
    let message = NumericUpDownMessage::value(handle(1), MessageDirection::ToWidget, 15);
    let sent = editor.handle_routed_message(&message);
    assert_eq!(
        sent,
        vec![RangeEditorMessage::value(handle(5), MessageDirection::ToWidget, 15..20)]
    );
    assert_eq!(editor.value, 10..20);
}

#[test]
fn a_lower_bound_at_or_above_the_upper_one_is_put_back() {
    let mut editor = editor();
    let at = NumericUpDownMessage::value(handle(1), MessageDirection::ToWidget, 20);
    assert_eq!(editor.handle_routed_message(&at), vec![sync(handle(1), 20)]);
    let above = NumericUpDownMessage::value(handle(1), MessageDirection::ToWidget, 25);
    assert_eq!(editor.handle_routed_message(&above), vec![sync(handle(1), 20)]);
    assert_eq!(editor.value, 10..20);
}

#[test]
fn an_upper_bound_above_the_lower_one_is_taken_over() {
    let mut editor = editor();
    let message = NumericUpDownMessage::value(handle(3), MessageDirection::ToWidget, 11);
    let sent = editor.handle_routed_message(&message);
    assert_eq!(
        sent,
        vec![RangeEditorMessage::value(handle(5), MessageDirection::ToWidget, 10..11)]
    );
}

#[test]
fn an_upper_bound_at_or_below_the_lower_one_is_put_back() {
    let mut editor = editor();
    let at = NumericUpDownMessage::value(handle(3), MessageDirection::ToWidget, 10);
    assert_eq!(editor.handle_routed_message(&at), vec![sync(handle(3), 10)]);
    let below = NumericUpDownMessage::value(handle(3), MessageDirection::ToWidget, -4);
    assert_eq!(editor.handle_routed_message(&below), vec![sync(handle(3), 10)]);
}

#[test]
fn sync_messages_and_messages_from_widgets_are_ignored() {
    let mut editor = editor();
    assert!(editor.handle_routed_message(&sync(handle(1), 15)).is_empty());
    let from = NumericUpDownMessage::value(handle(1), MessageDirection::FromWidget, 15);
    assert!(editor.handle_routed_message(&from).is_empty());
    let mut flagged = RangeEditorMessage::value(handle(5), MessageDirection::ToWidget, 1..2);
    flagged.flags = SYNC_FLAG;
    assert!(editor.handle_routed_message(&flagged).is_empty());
    let other = UiMessage {
        destination: handle(5),
        direction: MessageDirection::ToWidget,
        flags: 0,
        data: UiMessageData::<i32>::Other,
    };
    assert!(editor.handle_routed_message(&other).is_empty());
    let stranger = NumericUpDownMessage::value(handle(9), MessageDirection::ToWidget, 15);
    assert!(editor.handle_routed_message(&stranger).is_empty());
    assert_eq!(editor.value, 10..20);
}

#[test]
fn numbers_are_ordered_as_usual() {
    assert!(3i32.is_below(4));
    assert!(!4i32.is_below(4));
    assert!((-1i64).is_below(0));
    assert!(!5u32.is_below(2));
    assert!(7u64.is_same(7));
    assert_eq!(<i32 as NumericType>::zero(), 0);
    assert_eq!(<u64 as NumericType>::zero(), 0);
}

#[test]
fn a_new_builder_has_the_empty_range_at_the_origin() {
    let builder: RangeEditorBuilder<i32> = RangeEditorBuilder::new(WidgetBuilder::new());
    assert_eq!(builder.value, 0..0);
    assert!(builder.widget_builder.children.is_empty());
    let builder = builder.with_value(3..9);
    assert_eq!(builder.value, 3..9);
}

#[test]
fn building_registers_the_editor_and_its_parts() {
    let mut ctx: BuildContext<i32> = BuildContext::new();
    let before = ctx.add_node(UiNode::Text("title".to_string()));
    assert_eq!(before, ErasedHandle::new(0, 1));
    let built = RangeEditorBuilder::new(WidgetBuilder::new().with_child(before))
        .with_value(3..9)
        .build(&mut ctx);
    assert_eq!(built, ErasedHandle::new(6, 1));
    assert_eq!(ctx.len(), 7);
    assert!(matches!(ctx.try_get(handle(0)), Some(UiNode::Text(t)) if t == "title"));
    assert!(matches!(ctx.try_get(handle(1)), Some(UiNode::Text(t)) if t == "Start"));
    assert!(matches!(ctx.try_get(handle(2)), Some(UiNode::NumericUpDown(3))));
    assert!(matches!(ctx.try_get(handle(3)), Some(UiNode::Text(t)) if t == "End"));
    assert!(matches!(ctx.try_get(handle(4)), Some(UiNode::NumericUpDown(9))));
    match ctx.try_get(handle(5)) {
        Some(UiNode::Grid(cells)) => {
            assert_eq!(cells, &vec![handle(1), handle(2), handle(3), handle(4)])
        }
        _ => panic!("the grid is missing"),
    }
    match ctx.try_get(built) {
        Some(UiNode::RangeEditor(editor)) => {
            assert_eq!(editor.widget.handle, built);
            assert_eq!(editor.widget.children, vec![before, handle(5)]);
            assert_eq!(editor.value, 3..9);
            assert_eq!(editor.start, handle(2));
            assert_eq!(editor.end, handle(4));
        }
        _ => panic!("the editor is missing"),
    }
    assert!(ctx.try_get(handle(7)).is_none());
    assert!(ctx.try_get(ErasedHandle::new(1, 2)).is_none());
}

#[test]
fn a_built_editor_keeps_its_fields_in_step() {
    let mut ctx: BuildContext<u32> = BuildContext::new();
    let built = RangeEditorBuilder::new(WidgetBuilder::new()).with_value(2..8).build(&mut ctx);
    let mut editor = match ctx.try_get(built) {
        Some(UiNode::RangeEditor(editor)) => RangeEditor {
            widget: Widget { handle: editor.widget.handle, children: editor.widget.children.clone() },
            value: editor.value.clone(),
            start: editor.start,
            end: editor.end,
        },
        _ => panic!("the editor is missing"),
    };
    let edit = NumericUpDownMessage::value(editor.start, MessageDirection::ToWidget, 5u32);
    let sent = editor.handle_routed_message(&edit);
    assert_eq!(sent, vec![RangeEditorMessage::value(built, MessageDirection::ToWidget, 5..8)]);
    let answer = editor.handle_routed_message(&sent[0]);
    assert_eq!(editor.value, 5..8);
    assert_eq!(answer.len(), 3);
    assert_eq!(answer[2], RangeEditorMessage::value(built, MessageDirection::FromWidget, 5..8));
}
