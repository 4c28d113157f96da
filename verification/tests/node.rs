use mindy_engine::layout::left_right_horizontal::LeftRightHorizontalLayout;
use mindy_engine::layout::pos2::Pos2;
use mindy_engine::layout::size::Size;
use mindy_engine::mindmap::metadata::MindmapMetadata;
use mindy_engine::mindmap::style::MindmapStyle;
use mindy_engine::mindmap::Mindmap;
use mindy_engine::node::image::{ImagePosition, NodeImage};
use mindy_engine::node::metrics::{estimate_size, measure_image, measure_text_block, try_estimate_size};
use mindy_engine::node::style::NodeStyle;
use mindy_engine::node::{Direction, Node};

fn style(font_size: u32, padding: u32, max_width: u32, text_wrapping: bool) -> NodeStyle {
    NodeStyle { max_width, min_width: 0, min_height: 0, font_size, padding, text_wrapping }
}

fn text_node(text: &str, style_custom: NodeStyle) -> Node {
    Node { text: Some(text.to_string()), style_custom, ..Default::default() }
}

#[test]
fn new_node_has_an_image_of_unknown_size_and_nothing_else() {
    let node = Node::new();
    assert_eq!(node.text, None);
    assert_eq!(node.image, Some(NodeImage { width: None, height: None, position: ImagePosition::Left }));
    assert_eq!(node.style_custom, NodeStyle::default());
    assert_eq!(node.children, None);
    assert_eq!(node.position_from_initial, None);
    assert_eq!(node.position_real, None);
    assert_eq!(node.parent, None);
    assert_eq!(node.graphical_size, None);
    assert_eq!(node.children_graphical_size, None);
    assert!(node.is_root());
}

#[test]
fn default_node_has_no_image() {
    let node = Node::default();
    assert_eq!(node.image, None);
    assert_eq!(Node { image: Some(NodeImage::default()), ..Default::default() }, Node::new());
}

#[test]
fn defaults_are_zero() {
    assert_eq!(
        NodeStyle::default(),
        NodeStyle {
            max_width: 0,
            min_width: 0,
            min_height: 0,
            font_size: 0,
            padding: 0,
            text_wrapping: false
        }
    );
    assert_eq!(Pos2::default(), Pos2::new(0, 0));
    assert_eq!(Pos2::zero(), Pos2 { x: 0, y: 0 });
    assert_eq!(Size::default(), Size::new(0, 0));
    assert_eq!(MindmapStyle::default(), MindmapStyle { padding_horizontal: 0, padding_vertical: 0 });
    assert_eq!(MindmapMetadata::default().style, MindmapStyle::default());
    assert_eq!(Mindmap::default().data, None);
    assert_eq!(Direction::default(), Direction::Right);
    assert_eq!(ImagePosition::default(), ImagePosition::Left);
}

#[test]
fn builders_set_one_field_and_chain() {
    let mut node = Node::new();
    node.with_text("hello".to_string())
        .with_children(vec![Node::new(), Node::default()])
        .with_position(Pos2::new(3, -4));
    let mut expected = Node::new();
    expected.text = Some("hello".to_string());
    expected.children = Some(vec![Node::new(), Node::default()]);
    expected.position_from_initial = Some(Pos2::new(3, -4));
    assert_eq!(node, expected);
    assert_eq!(node.get_children(), Some(&vec![Node::new(), Node::default()]));
    assert_eq!(Node::new().get_children(), None);
}

#[test]
fn a_node_with_a_parent_is_no_root() {
    let mut parent = Node::new();
    parent.with_text("parent".to_string());
    let mut child = Node::new();
    assert!(child.is_root());
    child.with_parent(parent.clone());
    assert!(!child.is_root());
    assert_eq!(child.parent, Some(Box::new(parent)));
}

#[test]
fn graphical_size_defaults_to_zero() {
    let mut node = Node::new();
    assert_eq!(node.get_graphical_size(), Size { width: 0, height: 0 });
    node.graphical_size = Some(Size { width: 12, height: 34 });
    assert_eq!(node.get_graphical_size(), Size { width: 12, height: 34 });
}

#[test]
fn real_position_is_the_initial_position_minus_the_offset() {
    let mut node = Node::new();
    node.with_position(Pos2::new(10, -20));
    let before = node.clone();
    let moved = node.with_position_real(&Pos2::new(-5, 7));
    assert_eq!(moved.position_real, Some(Pos2::new(15, -27)));
    assert_eq!(node.position_from_initial, Some(Pos2::new(10, -20)));
    node.position_real = None;
    assert_eq!(node, before);
}

#[test]
fn subtract_moves_in_place() {
    let mut position = Pos2::new(i64::MAX, i64::MIN + 1);
    position.subtract(&Pos2::new(i64::MAX, 1));
    assert_eq!(position, Pos2::new(0, i64::MIN));
    position.subtract(&Pos2::new(1, -1)).subtract(&Pos2::new(1, -1));
    assert_eq!(position, Pos2::new(-2, i64::MIN + 2));
}

#[test]
fn duplicate_copies_the_whole_tree() {
    let mut parent = Node::new();
    parent.with_text("up".to_string());
    let mut node = text_node("héllo", style(14, 3, 200, true));
    node.children = Some(vec![text_node("a", style(1, 2, 3, false)), Node::new()]);
    node.position_from_initial = Some(Pos2::new(1, 2));
    node.position_real = Some(Pos2::new(3, 4));
    node.graphical_size = Some(Size::new(5, 6));
    node.children_graphical_size = Some(Size::new(7, 8));
    node.with_parent(parent);
    assert_eq!(node.duplicate(), node);
    assert_eq!(node.clone(), node);
}

#[test]
fn unwrapped_text_takes_one_line() {
    // glyphs 10 wide and 12 high, 4 between lines
    let size = estimate_size(5, &style(14, 3, 200, false), &None);
    assert_eq!(size, Size { width: 50 + 3 + 6, height: 16 + 6 });
    // unwrapped text may exceed the maximum width
    let size = estimate_size(50, &style(14, 3, 200, false), &None);
    assert_eq!(size, Size { width: 509, height: 22 });
}

#[test]
fn wrapped_text_breaks_into_lines_and_is_capped() {
    let size = estimate_size(5, &style(14, 3, 30, true), &None);
    assert_eq!(size, Size { width: 30, height: 2 * 16 + 6 });
    // 60 units of text fill two lines of 30 exactly
    let size = estimate_size(6, &style(14, 3, 30, true), &None);
    assert_eq!(size, Size { width: 30, height: 2 * 16 + 6 });
    let size = estimate_size(7, &style(14, 3, 30, true), &None);
    assert_eq!(size, Size { width: 30, height: 3 * 16 + 6 });
    // no text, no line
    let size = estimate_size(0, &style(14, 3, 30, true), &None);
    assert_eq!(size, Size { width: 9, height: 6 });
}

#[test]
fn minimum_width_and_height_are_respected() {
    let mut with_minimum = style(14, 3, 200, false);
    with_minimum.min_width = 100;
    with_minimum.min_height = 80;
    assert_eq!(estimate_size(0, &with_minimum, &None), Size { width: 100, height: 80 });
    assert_eq!(estimate_size(20, &with_minimum, &None), Size { width: 209, height: 80 });
}

#[test]
fn image_beside_the_text_adds_its_width() {
    let image = Some(NodeImage { width: Some(40), height: Some(30), position: ImagePosition::Left });
    // a line has 160 units left
    let size = estimate_size(5, &style(14, 3, 200, true), &image);
    assert_eq!(size, Size { width: 50 + 40 + 3 + 6, height: 30 + 6 });
    let size = estimate_size(17, &style(14, 3, 200, true), &image);
    assert_eq!(size, Size { width: 200, height: 32 + 6 });
    let right = Some(NodeImage { width: Some(40), height: Some(30), position: ImagePosition::Right });
    assert_eq!(estimate_size(17, &style(14, 3, 200, true), &right), size);
}

#[test]
fn image_above_or_below_the_text_adds_its_height() {
    let image = Some(NodeImage { width: Some(40), height: Some(30), position: ImagePosition::Top });
    // a line has 197 units left
    let size = estimate_size(5, &style(14, 3, 200, true), &image);
    assert_eq!(size, Size { width: 50 + 6, height: 16 + 30 + 3 + 6 });
    let size = estimate_size(3, &style(14, 3, 200, true), &image);
    assert_eq!(size, Size { width: 40 + 6, height: 55 });
    let below = Some(NodeImage { width: Some(40), height: Some(30), position: ImagePosition::Bottom });
    assert_eq!(estimate_size(3, &style(14, 3, 200, true), &below), size);
    let size = estimate_size(20, &style(14, 3, 200, true), &image);
    assert_eq!(size, Size { width: 200, height: 2 * 16 + 30 + 3 + 6 });
}

#[test]
fn image_is_capped_at_the_maximum_width_and_unknown_dimensions_are_zero() {
    let big = Some(NodeImage { width: Some(500), height: Some(400), position: ImagePosition::Left });
    assert_eq!(measure_image(&big, 200), Size { width: 200, height: 200 });
    assert_eq!(measure_image(&Some(NodeImage::default()), 200), Size { width: 0, height: 0 });
    let flat = Some(NodeImage { width: Some(30), height: None, position: ImagePosition::Left });
    assert_eq!(measure_image(&flat, 200), Size { width: 30, height: 0 });
    let thin = Some(NodeImage { width: None, height: Some(30), position: ImagePosition::Left });
    assert_eq!(measure_image(&thin, 20), Size { width: 0, height: 20 });
    assert_eq!(measure_image(&None, 200), Size { width: 0, height: 0 });
    assert_eq!(estimate_size(5, &style(14, 3, 200, false), &big), Size { width: 259, height: 206 });
}

#[test]
fn a_font_below_the_glyph_margins_gives_no_negative_size() {
    // glyphs -2 wide and 0 high
    assert_eq!(estimate_size(5, &style(2, 3, 200, false), &None), Size { width: 0, height: 10 });
    assert_eq!(estimate_size(5, &style(2, 3, 30, true), &None), Size { width: 0, height: 6 });
    assert_eq!(estimate_size(5, &NodeStyle::default(), &None), Size { width: 0, height: 2 });
    // -40 units of text on lines of 30: the quotient rounds up to -1 line of 4
    let image = Some(NodeImage { width: None, height: Some(10), position: ImagePosition::Top });
    let mut tall = style(2, 0, 30, true);
    tall.min_height = 1;
    assert_eq!(estimate_size(20, &tall, &image), Size { width: 0, height: 6 });
}

#[test]
fn an_image_of_unknown_size_takes_no_space() {
    let mut node = Node::new();
    node.style_custom = style(14, 5, 200, true);
    node.compute_graphical_size();
    assert_eq!(node.graphical_size, Some(Size { width: 15, height: 10 }));
}

#[test]
fn wrapping_without_room_takes_one_line_for_each_glyph() {
    // no image and no width at all: five lines of 16
    assert_eq!(estimate_size(5, &style(14, 3, 0, true), &None), Size { width: 0, height: 86 });
    assert_eq!(estimate_size(0, &style(14, 3, 0, true), &None), Size { width: 0, height: 6 });
    // an image beside the text that takes the whole width
    let wide = Some(NodeImage { width: Some(300), height: Some(10), position: ImagePosition::Left });
    assert_eq!(estimate_size(5, &style(14, 3, 200, true), &wide), Size { width: 200, height: 86 });
    assert_eq!(estimate_size(0, &style(14, 3, 200, true), &wide), Size { width: 200, height: 16 });
    let exact = Some(NodeImage { width: Some(200), height: Some(90), position: ImagePosition::Right });
    assert_eq!(estimate_size(5, &style(14, 3, 200, true), &exact), Size { width: 200, height: 96 });
    // one unit of room is room
    let nearly = Some(NodeImage { width: Some(199), height: Some(10), position: ImagePosition::Left });
    assert_eq!(
        estimate_size(5, &style(14, 3, 200, true), &nearly),
        Size { width: 200, height: 50 * 16 + 6 }
    );
    // an image above the text leaves the padding out of each line
    let above = Some(NodeImage { width: Some(300), height: Some(10), position: ImagePosition::Top });
    assert_eq!(estimate_size(5, &style(14, 3, 200, true), &above), Size { width: 200, height: 35 });
    assert_eq!(estimate_size(5, &style(14, 3, 3, true), &above), Size { width: 3, height: 92 });
    assert_eq!(
        try_estimate_size(5, &style(14, 3, 3, true), &above),
        Some(Size { width: 3, height: 92 })
    );
    assert_eq!(estimate_size(5, &style(14, 3, 200, false), &wide), Size { width: 259, height: 22 });
    assert_eq!(measure_text_block(5, &style(14, 3, 40, true), 40), Size { width: 50, height: 80 });
}

#[test]
fn the_estimate_respects_the_style() {
    let images = [
        None,
        Some(NodeImage::default()),
        Some(NodeImage { width: Some(300), height: Some(10), position: ImagePosition::Left }),
        Some(NodeImage { width: Some(20), height: Some(70), position: ImagePosition::Bottom }),
    ];
    for wrapping in [false, true] {
        for (min_width, max_width) in [(0, 0), (10, 10), (10, 200), (0, 5), (40, 60)] {
            for font_size in [0, 4, 14] {
                for padding in [0, 5, 10] {
                    for image in &images {
                        for text_len in [0, 1, 7, 100] {
                            let style = NodeStyle {
                                max_width,
                                min_width,
                                min_height: 12,
                                font_size,
                                padding,
                                text_wrapping: wrapping,
                            };
                            let size = try_estimate_size(text_len, &style, image)
                                .expect("small sizes fit");
                            assert!(size.height >= 12);
                            assert!(size.width >= min_width);
                            if wrapping {
                                assert!(size.width <= max_width);
                            }
                        }
                    }
                }
            }
        }
    }
}

#[test]
fn sizes_beyond_the_range_are_refused() {
    let huge = style(u32::MAX, 0, 200, false);
    assert_eq!(try_estimate_size(0, &huge, &None), None);
    let wide = style(u32::MAX - 2, 0, 200, false);
    // one glyph is u32::MAX - 6 wide
    assert_eq!(
        try_estimate_size(1, &wide, &None),
        Some(Size { width: u32::MAX - 6, height: u32::MAX })
    );
    assert_eq!(try_estimate_size(2, &wide, &None), None);
    let thin_lines = style(1000, 0, 1, true);
    // 996 lines of 1002 fit, 4_400_000 lines do not
    assert_eq!(try_estimate_size(1, &thin_lines, &None), Some(Size { width: 1, height: 996 * 1002 }));
    assert_eq!(try_estimate_size(4_400_000, &thin_lines, &None), None);
    let mut padded = style(14, u32::MAX, 200, false);
    padded.min_width = 7;
    assert_eq!(try_estimate_size(1, &padded, &None), None);
}

#[test]
fn text_block_alone() {
    let size = measure_text_block(13, &style(14, 3, 100, true), 40);
    assert_eq!(size, Size { width: 130, height: 48 });
    let size = measure_text_block(13, &style(14, 3, 100, false), 40);
    assert_eq!(size, Size { width: 130, height: 16 });
    let node = text_node("thirteen char", style(14, 3, 100, true));
    assert_eq!(node.get_graphical_text_size(40), Size { width: 130, height: 48 });
    assert_eq!(Node::new().get_graphical_text_size(0), Size { width: 0, height: 2 });
}

#[test]
fn text_length_is_counted_in_bytes() {
    let mut node = text_node("é", style(14, 0, 200, false));
    node.compute_graphical_size();
    assert_eq!(node.graphical_size, Some(Size { width: 20, height: 16 }));
}

#[test]
fn compute_graphical_size_stores_the_estimate() {
    let mut node = Node::new();
    node.style_custom = style(14, 3, 200, false);
    node.with_text("hello".to_string());
    let before = node.clone();
    node.compute_graphical_size();
    assert_eq!(node.graphical_size, Some(Size { width: 59, height: 22 }));
    assert_eq!(node.get_graphical_size(), Size { width: 59, height: 22 });
    node.graphical_size = None;
    assert_eq!(node, before);

    let mut plain = Node::new();
    plain.compute_graphical_size();
    assert_eq!(plain.graphical_size, Some(Size { width: 0, height: 2 }));
}

#[test]
fn try_compute_graphical_size_leaves_the_node_where_it_fails() {
    let mut node = text_node("hello", style(u32::MAX, 3, 30, true));
    let before = node.clone();
    assert!(!node.try_compute_graphical_size());
    assert_eq!(node, before);
    node.style_custom.font_size = 14;
    assert!(node.try_compute_graphical_size());
    assert_eq!(node.graphical_size, Some(Size { width: 30, height: 38 }));
    node.style_custom.max_width = 0;
    assert!(node.try_compute_graphical_size());
    assert_eq!(node.graphical_size, Some(Size { width: 0, height: 86 }));
}

fn sized_node(own: (u32, u32), below: Option<(u32, u32)>) -> Node {
    Node {
        graphical_size: Some(Size { width: own.0, height: own.1 }),
        children_graphical_size: below.map(|(width, height)| Size { width, height }),
        ..Default::default()
    }
}

#[test]
fn children_size_stacks_heights_and_takes_the_widest_branch() {
    let mut node = Node::new();
    node.with_children(vec![
        sized_node((40, 20), None),
        sized_node((30, 10), Some((50, 60))),
        sized_node((30, 70), Some((5, 60))),
        Node::default(),
    ]);
    let before = node.clone();
    node.compute_children_graphical_size(5, 10);
    // heights 20, 60, 70 and 0, each with 5 after it
    assert_eq!(node.children_graphical_size, Some(Size { width: 90, height: 170 }));
    node.children_graphical_size = None;
    assert_eq!(node, before);
}

#[test]
fn a_leaf_gets_no_children_size() {
    let mut leaf = sized_node((40, 20), Some((1, 2)));
    leaf.compute_children_graphical_size(5, 10);
    assert_eq!(leaf.children_graphical_size, None);
    assert_eq!(leaf.get_subtree_size(), leaf.get_graphical_size());

    let mut empty = sized_node((40, 20), Some((1, 2)));
    empty.children = Some(vec![]);
    assert!(empty.try_compute_children_graphical_size(5, 10));
    assert_eq!(empty.children_graphical_size, None);
    assert_eq!(empty.get_subtree_size(), Size { width: 40, height: 20 });
}

#[test]
fn children_size_beyond_the_range_is_refused() {
    let mut node = Node::new();
    node.with_children(vec![sized_node((0, u32::MAX), None), sized_node((0, 0), None)]);
    assert!(node.try_compute_children_graphical_size(0, 0));
    assert_eq!(node.children_graphical_size, Some(Size { width: 0, height: u32::MAX }));
    let before = node.clone();
    assert!(!node.try_compute_children_graphical_size(1, 0));
    assert_eq!(node, before);
    assert!(node.try_compute_children_graphical_size(0, u32::MAX));
    assert_eq!(node.children_graphical_size, Some(Size { width: u32::MAX, height: u32::MAX }));
    node.children = Some(vec![sized_node((u32::MAX, 0), Some((1, 0)))]);
    assert!(!node.try_compute_children_graphical_size(0, 0));
}

fn family() -> Node {
    let plain = style(14, 2, 100, false);
    let mut child2 = text_node("xy", plain);
    child2.children = Some(vec![text_node("abcd", plain)]);
    let mut root = text_node("root", plain);
    root.children = Some(vec![text_node("ab", plain), child2]);
    root
}

#[test]
fn sizes_are_computed_bottom_up() {
    let mut root = family();
    root.compute_sizes(5, 10);
    assert_eq!(root.graphical_size, Some(Size { width: 46, height: 20 }));
    assert_eq!(root.children_graphical_size, Some(Size { width: 92, height: 55 }));
    let children = root.children.as_ref().unwrap();
    assert_eq!(children[0].graphical_size, Some(Size { width: 26, height: 20 }));
    assert_eq!(children[0].children_graphical_size, None);
    assert_eq!(children[1].graphical_size, Some(Size { width: 26, height: 20 }));
    assert_eq!(children[1].children_graphical_size, Some(Size { width: 56, height: 25 }));
    let grandchild = &children[1].children.as_ref().unwrap()[0];
    assert_eq!(grandchild.graphical_size, Some(Size { width: 46, height: 20 }));
    assert_eq!(grandchild.children_graphical_size, None);

    let mut again = family();
    assert!(again.try_compute_sizes(5, 10));
    assert_eq!(again, root);
    assert!(again.try_compute_sizes(5, 10));
    assert_eq!(again, root);
}

#[test]
fn try_compute_sizes_leaves_the_tree_where_one_node_fails() {
    let mut root = family();
    root.children.as_mut().unwrap()[1].children.as_mut().unwrap()[0].style_custom =
        style(u32::MAX, 2, 100, false);
    let before = root.clone();
    assert!(!root.try_compute_sizes(5, 10));
    assert_eq!(root, before);
    // lines without room are no obstacle: four lines of 16 for "abcd"
    root.children.as_mut().unwrap()[1].children.as_mut().unwrap()[0].style_custom =
        style(14, 2, 0, true);
    assert!(root.try_compute_sizes(5, 10));
    let grandchild = &root.children.as_ref().unwrap()[1].children.as_ref().unwrap()[0];
    assert_eq!(grandchild.graphical_size, Some(Size { width: 0, height: 68 }));

    let mut root = family();
    root.children.as_mut().unwrap()[0].style_custom.min_height = u32::MAX;
    let before = root.clone();
    assert!(!root.try_compute_sizes(5, 10));
    assert_eq!(root, before);
    // the root's other child is 20 high
    root.children.as_mut().unwrap()[0].style_custom.min_height = u32::MAX - 20;
    assert!(!root.try_compute_sizes(1, 10));
    assert!(root.try_compute_sizes(0, 10));
    assert_eq!(root.children_graphical_size, Some(Size { width: 92, height: u32::MAX }));
    assert!(!root.try_compute_sizes(0, u32::MAX));
}

#[test]
fn sizes_then_layout() {
    let mut mindmap = Mindmap {
        data: Some(family()),
        metadata: MindmapMetadata { style: MindmapStyle { padding_horizontal: 10, padding_vertical: 5 } },
    };
    mindmap.data.as_mut().unwrap().compute_sizes(5, 10);
    LeftRightHorizontalLayout::layout(&mut mindmap);
    let root = mindmap.data.unwrap();
    let children = root.children.as_ref().unwrap();
    assert_eq!(children[0].position_from_initial, Some(Pos2::new(46, 10)));
    assert_eq!(children[1].position_from_initial, Some(Pos2::new(-46, 12)));
    let grandchild = &children[1].children.as_ref().unwrap()[0];
    assert_eq!(grandchild.position_from_initial, Some(Pos2::new(-92, 10)));
    assert_eq!(root.position_from_initial, Some(Pos2::new(0, 11)));
}
