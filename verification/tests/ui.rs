use renderer::ui::{buffer_size, Layer, Renderer};

fn quad(layer: &Layer) -> Option<(u32, u32, u64)> {
    match *layer {
        Layer::Quad { start_index, end_index, texture } => Some((start_index, end_index, texture)),
        _ => None,
    }
}

fn circle(layer: &Layer) -> Option<(u32, u32)> {
    match *layer {
        Layer::Circle { start_index, end_index } => Some((start_index, end_index)),
        _ => None,
    }
}

fn line(layer: &Layer) -> Option<(u32, u32)> {
    match *layer {
        Layer::Line { start_index, end_index } => Some((start_index, end_index)),
        _ => None,
    }
}

#[test]
fn buffer_size_has_room_for_one_element() {
    assert_eq!(buffer_size(0, 48), 48);
    assert_eq!(buffer_size(1, 48), 48);
    assert_eq!(buffer_size(3, 48), 144);
}

#[test]
fn frame_batches_consecutive_draws_of_one_kind() {
    let mut ui = Renderer::new(1, 48, 32, 48);
    let mut frame = ui.begin_frame();
    frame.push_quad(None);
    frame.push_quad(Some(1));
    frame.push_quad(Some(7));
    frame.push_circle();
    frame.push_circle();
    frame.push_quad(None);
    frame.push_line();
    assert_eq!(frame.quad_count(), 4);
    assert_eq!(frame.circle_count(), 2);
    assert_eq!(frame.line_count(), 1);
    let plan = frame.render(&mut ui);
    assert_eq!(plan.layers.len(), 5);
    assert_eq!(quad(&plan.layers[0]), Some((0, 2, 1)));
    assert_eq!(quad(&plan.layers[1]), Some((2, 3, 7)));
    assert_eq!(circle(&plan.layers[2]), Some((0, 2)));
    assert_eq!(quad(&plan.layers[3]), Some((3, 4, 1)));
    assert_eq!(line(&plan.layers[4]), Some((0, 1)));
    assert_eq!(plan.quads_buffer, Some(192));
    assert_eq!(plan.circles_buffer, Some(64));
    assert_eq!(plan.lines_buffer, None);
    assert!(plan.recreate_bind_group);
}

#[test]
fn frame_keeps_buffers_that_are_large_enough() {
    let mut ui = Renderer::new(9, 48, 32, 48);
    let mut frame = ui.begin_frame();
    for _ in 0..3 {
        frame.push_circle();
    }
    let plan = frame.render(&mut ui);
    assert_eq!(plan.circles_buffer, Some(96));
    assert_eq!(plan.layers.len(), 1);
    assert_eq!(circle(&plan.layers[0]), Some((0, 3)));

    let mut frame = ui.begin_frame();
    frame.push_circle();
    frame.push_line();
    frame.push_circle();
    let plan = frame.render(&mut ui);
    assert_eq!(plan.circles_buffer, None);
    assert_eq!(plan.quads_buffer, None);
    assert_eq!(plan.lines_buffer, None);
    assert!(!plan.recreate_bind_group);
    assert_eq!(plan.layers.len(), 3);
    assert_eq!(circle(&plan.layers[0]), Some((0, 1)));
    assert_eq!(line(&plan.layers[1]), Some((0, 1)));
    assert_eq!(circle(&plan.layers[2]), Some((1, 2)));
}

#[test]
fn empty_frame_draws_nothing() {
    let mut ui = Renderer::new(0, 48, 32, 48);
    let frame = ui.begin_frame();
    let plan = frame.render(&mut ui);
    assert!(plan.layers.is_empty());
    assert!(!plan.recreate_bind_group);
}
