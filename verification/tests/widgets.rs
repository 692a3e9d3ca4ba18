use node_system::channel_com::ChannelCom;
use node_system::widgets::{Container, ContainerDescriptor, DragField, DragFieldDescriptor, Row, RowDescriptor};

#[test]
fn row_keeps_children_in_order() {
    let mut row = Row::new(RowDescriptor { label: Some("row".to_string()), vec: vec![1, 2] });
    row.push(3);
    let empty: Box<Row<i32>> = Row::new(RowDescriptor::default());
    drop(empty);
    drop(row);
}

#[test]
fn container_and_drag_field_are_built_from_descriptors() {
    let c = Container::new(ContainerDescriptor { label: None, style: 1u8, layout: "layout" });
    drop(c);
    let d = DragField::new(DragFieldDescriptor { label: Some("d".to_string()), size: [10u32, 20u32], item: 'x' });
    drop(d);
}

#[test]
fn channel_com_holds_both_ends() {
    let (tx, rx) = std::sync::mpsc::channel::<u8>();
    let com: ChannelCom<u8, u8> = ChannelCom::new(tx, rx);
    drop(com);
}
