use doom_engine::bsp::BSP;
use doom_engine::data_types::{BBox, Node};
use doom_engine::player::{KeyState, Player};
use doom_engine::render::{clear, draw_box, draw_line, draw_player, plot, Viewport};
use doom_engine::wad_reader::WadError;

fn node(x: i16, y: i16, dx: i16, dy: i16, front: u16, back: u16) -> Node {
    let b = BBox { top: 0, bottom: 0, left: 0, right: 0 };
    Node {
        x_partition: x,
        y_partition: y,
        dx_partition: dx,
        dy_partition: dy,
        bbox_front: b,
        bbox_back: b,
        front_child_id: front,
        back_child_id: back,
    }
}

fn at(x: i16, y: i16) -> Player {
    Player { pos: (x, y), angle: 0 }
}

fn no_keys() -> KeyState {
    KeyState { up: false, down: false, left: false, right: false, w: false, a: false, s: false, d: false }
}

#[test]
fn leaf_child_yields_subsector() {
    let nodes = vec![node(0, 0, 1, 0, 0x8005, 0x8003)];
    // (0, 1) gives side 0*0 - 1*1 = -1: back side, so the back child comes first.
    assert_eq!(BSP::render_bsp_node(&at(0, 1), &nodes, 0), Ok(vec![3, 5]));
    assert_eq!(BSP::render_bsp_node(&at(0, -1), &nodes, 0), Ok(vec![5, 3]));
    assert_eq!(BSP::render_bsp_node(&at(0, 0), &nodes, 0x8005), Ok(vec![5]));
}

#[test]
fn traversal_order_policy_reverses() {
    let nodes = vec![node(0, 0, 1, 0, 0x8005, 0x8003)];
    assert_eq!(BSP::traverse(&at(0, -1), &nodes, 0, true), Ok(vec![5, 3]));
    assert_eq!(BSP::traverse(&at(0, -1), &nodes, 0, false), Ok(vec![3, 5]));
}

#[test]
fn traversal_recurses_through_nodes() {
    let nodes = vec![node(0, 0, 0, 1, 0x8000, 0x8001), node(0, 0, 1, 0, 0, 0x8002)];
    // Root is node 1; (5, -3) is on its front side, and on node 0's back side.
    let p = at(5, -3);
    assert!(!BSP::is_on_back_side(&p, &nodes[1]));
    assert!(!BSP::is_on_back_side(&p, &nodes[0]));
    assert_eq!(BSP::render_bsp_node(&p, &nodes, 1), Ok(vec![0, 1, 2]));
}

#[test]
fn cyclic_tree_is_broken_tree() {
    let nodes = vec![node(0, 0, 1, 0, 0, 0)];
    assert_eq!(BSP::render_bsp_node(&at(0, 0), &nodes, 0), Err(WadError::BrokenTree));
}

#[test]
fn stray_node_index_is_skipped() {
    let nodes = vec![node(0, 0, 1, 0, 7, 0x8002)];
    assert_eq!(BSP::render_bsp_node(&at(0, -1), &nodes, 0), Ok(vec![2]));
}

#[test]
fn render_sub_sector_appends() {
    let mut out = vec![1u16];
    BSP::render_sub_sector(9, &mut out);
    assert_eq!(out, vec![1, 9]);
}

#[test]
fn side_through_origin_along_x() {
    let n = node(0, 0, 1, 0, 0x8000, 0x8001);
    // side = dx * dy_partition - dy * dx_partition
    assert!(!BSP::is_on_back_side(&at(0, -1), &n));
    assert!(BSP::is_on_back_side(&at(0, 1), &n));
    assert!(BSP::is_on_back_side(&at(5, 0), &n));
}

#[test]
fn reversing_partition_flips_side() {
    let points = [(3, 4), (-7, 2), (100, -100), (-32768, 32767), (32767, -32768)];
    let n = node(10, -20, 300, -400, 0x8000, 0x8001);
    let r = node(10, -20, -300, 400, 0x8000, 0x8001);
    for (x, y) in points {
        let p = at(x, y);
        assert_ne!(BSP::is_on_back_side(&p, &n), BSP::is_on_back_side(&p, &r));
    }
}

#[test]
fn side_uses_wide_arithmetic() {
    let n = node(-32768, -32768, 32767, -32768, 0x8000, 0x8001);
    // (65535 * -32768) - (65535 * 32767) < 0
    assert!(BSP::is_on_back_side(&at(32767, 32767), &n));
}

#[test]
fn plot_writes_projected_pixel() {
    let mut frame = vec![0u8; 640 * 480 * 4];
    plot(0, -2000, &mut frame, (1, 2, 3));
    assert_eq!(&frame[640..644], &[1, 2, 3, 255]);
    plot(-1280, -2000, &mut frame, (4, 5, 6));
    assert_eq!(&frame[0..4], &[4, 5, 6, 255]);
    // -9 / 8 truncates to -1: column 159
    plot(-9, -2000, &mut frame, (7, 8, 9));
    assert_eq!(&frame[636..640], &[7, 8, 9, 255]);
}

#[test]
fn plot_outside_frame_is_skipped() {
    let len = 640 * 480 * 4;
    let coords = [
        (0i16, 0i16),
        (i16::MIN, i16::MIN),
        (i16::MAX, i16::MIN),
        (i16::MIN, i16::MAX),
        (i16::MAX, i16::MAX),
        (3839, -5839),
        (3840, -5839),
        (-1287, -2000),
        (-1288, -2000),
    ];
    for (x, y) in coords {
        let mut frame = vec![0u8; len];
        plot(x, y, &mut frame, (9, 9, 9));
        let changed: Vec<usize> = (0..len).filter(|i| frame[*i] != 0).collect();
        let p = 4 * (x as i64 / 8 + 160) + 4 * 640 * (-250 - y as i64 / 8);
        if p >= 0 && p <= (len - 4) as i64 {
            let p = p as usize;
            assert_eq!(changed, vec![p, p + 1, p + 2, p + 3]);
        } else {
            assert!(changed.is_empty());
        }
    }
    let mut small = vec![0u8; 6];
    plot(-1280 + 8, -2000, &mut small, (9, 9, 9));
    assert_eq!(small, vec![0u8; 6]);
    plot(-1280, -2000, &mut small, (9, 9, 9));
    assert_eq!(small, vec![9, 9, 9, 255, 0, 0]);
}

#[test]
fn clear_sets_opaque_black() {
    let mut frame = vec![9u8; 10];
    clear(&mut frame);
    assert_eq!(frame, vec![0, 0, 0, 255, 0, 0, 0, 255, 0, 0]);
}

#[test]
fn draw_line_paints_each_point() {
    let mut frame = vec![0u8; 640 * 480 * 4];
    draw_line(&Viewport::standard(), 0, -2000, 16, -2000, &mut frame, (1, 2, 3));
    assert_eq!(&frame[640..652], &[1, 2, 3, 255, 1, 2, 3, 255, 1, 2, 3, 255]);
    assert_eq!(&frame[652..656], &[0, 0, 0, 0]);
}

#[test]
fn draw_box_paints_edges() {
    let mut frame = vec![0u8; 640 * 480 * 4];
    let b = BBox { top: -2000, bottom: -2008, left: 0, right: 8 };
    draw_box(&Viewport::standard(), &b, &mut frame, (1, 1, 1));
    assert_eq!(&frame[640..648], &[1, 1, 1, 255, 1, 1, 1, 255]);
    assert_eq!(&frame[640 + 2560..648 + 2560], &[1, 1, 1, 255, 1, 1, 1, 255]);
}

#[test]
fn draw_player_paints_circle() {
    let mut frame = vec![0u8; 640 * 480 * 4];
    draw_player(&Viewport::standard(), (0, -2000), &mut frame);
    assert_eq!(&frame[656..660], &[255, 0, 255, 255]);
    assert_eq!(&frame[640..644], &[0, 0, 0, 0]);
}

#[test]
fn flags_compose_additively() {
    let mut p = at(10, 20);
    let mut k = no_keys();
    k.w = true;
    k.a = true;
    k.left = true;
    p.update(&k);
    assert_eq!(p.pos, (8, 22));
    assert_eq!(p.angle, 2);
    let mut k = no_keys();
    k.w = true;
    k.s = true;
    k.d = true;
    k.right = true;
    p.control(&k);
    assert_eq!(p.pos, (10, 22));
    assert_eq!(p.angle, 0);
}

#[test]
fn movement_wraps_at_range_ends() {
    let mut p = Player { pos: (32767, -32768), angle: 32766 };
    let mut k = no_keys();
    k.d = true;
    k.s = true;
    k.left = true;
    p.update(&k);
    assert_eq!(p.pos, (-32767, 32766));
    assert_eq!(p.angle, -32768);
}

#[test]
fn viewport_changes_projection() {
    let v = Viewport { scale: 1, offset_x: 2, offset_y: -1, width: 4, height: 3 };
    assert!(v.is_valid());
    let mut frame = vec![0u8; 4 * 3 * 4];
    // column 1 + 2 = 3, row 1 - 0 = 1: pixel 7
    draw_line(&v, 1, 0, 1, 0, &mut frame, (5, 6, 7));
    assert_eq!(&frame[28..32], &[5, 6, 7, 255]);
    assert_eq!(frame.iter().filter(|b| **b != 0).count(), 4);
    assert!(!Viewport { scale: 0, ..v }.is_valid());
}

#[test]
fn forest_walk_emits_each_leaf_once() {
    let nodes = vec![
        node(0, 0, 1, 0, 0x8000, 0x8001),
        node(0, 0, 0, 1, 0x8002, 0x8003),
        node(0, 0, 1, 1, 0, 1),
    ];
    let out = BSP::render_bsp_node(&at(3, -7), &nodes, 2).unwrap();
    let mut sorted = out.clone();
    sorted.sort();
    assert_eq!(sorted, vec![0, 1, 2, 3]);
}

#[test]
fn shared_node_exceeds_forest_budget() {
    // Acyclic but not a tree: node 1 names node 0 twice, so the walk needs
    // 1 + 3 + 3 = 7 visits against a budget of 2 * 2 + 1.
    let nodes = vec![node(0, 0, 1, 0, 0x8000, 0x8001), node(0, 0, 1, 0, 0, 0)];
    assert_eq!(BSP::render_bsp_node(&at(0, -1), &nodes, 1), Err(WadError::BrokenTree));
    // From node 0 alone it is a tree.
    assert_eq!(BSP::render_bsp_node(&at(0, -1), &nodes, 0), Ok(vec![0, 1]));
}
