use doom_engine::data_types::{Linedef, Node, BBox, Seg, SubSector, Thing, Vertex};
use doom_engine::engine::DoomEngine;
use doom_engine::wad_data::WadData;
use doom_engine::wad_reader::{get_i16, get_u16, get_u32, WadError, WadReader};

fn push_u32(v: &mut Vec<u8>, x: u32) {
    v.extend_from_slice(&x.to_le_bytes());
}

fn name8(s: &str) -> [u8; 8] {
    let mut n = [0u8; 8];
    n[..s.len()].copy_from_slice(s.as_bytes());
    n
}

/// Builds an archive from named lumps, directory placed after the lump data.
fn archive(lumps: &[(&str, Vec<u8>)]) -> Vec<u8> {
    let mut body: Vec<u8> = Vec::new();
    let mut entries: Vec<(u32, u32, [u8; 8])> = Vec::new();
    for (name, bytes) in lumps {
        entries.push(((12 + body.len()) as u32, bytes.len() as u32, name8(name)));
        body.extend_from_slice(bytes);
    }
    let mut out = b"PWAD".to_vec();
    push_u32(&mut out, lumps.len() as u32);
    push_u32(&mut out, (12 + body.len()) as u32);
    out.extend_from_slice(&body);
    for (off, size, name) in entries {
        push_u32(&mut out, off);
        push_u32(&mut out, size);
        out.extend_from_slice(&name);
    }
    out
}

fn i16s(vals: &[i16]) -> Vec<u8> {
    vals.iter().flat_map(|v| v.to_le_bytes()).collect()
}

#[test]
fn single_vertex_archive_decodes() {
    let mut data = b"IWAD".to_vec();
    push_u32(&mut data, 1);
    push_u32(&mut data, 12);
    push_u32(&mut data, 28);
    push_u32(&mut data, 4);
    data.extend_from_slice(b"VERTEXES");
    data.extend_from_slice(&[0x00, 0x00, 0xFF, 0xFF]);
    let r = WadReader::new(data).unwrap();
    assert_eq!(r.header.wad_type, *b"IWAD");
    assert_eq!(r.header.lump_count, 1);
    assert_eq!(r.header.init_offset, 12);
    assert_eq!(r.directory[0].lump_name, *b"VERTEXES");
    assert_eq!(r.read_vertex(0).unwrap(), vec![Vertex { x: 0, y: -1 }]);
}

#[test]
fn i16_round_trips_all_values() {
    for v in i16::MIN..=i16::MAX {
        assert_eq!(get_i16(&v.to_le_bytes()), v);
    }
    assert_eq!(get_i16(&[0x00, 0x80]), -32768);
    assert_eq!(get_i16(&[0xFF, 0xFF]), -1);
    assert_eq!(get_i16(&[0x00, 0x00]), 0);
    assert_eq!(get_i16(&[0xFF, 0x7F]), 32767);
}

#[test]
fn unsigned_decoders_are_little_endian() {
    assert_eq!(get_u16(&[0x34, 0x12]), 0x1234);
    assert_eq!(get_u16(&[0xFF, 0xFF]), 65535);
    assert_eq!(get_u32(&[0x78, 0x56, 0x34, 0x12]), 0x12345678);
    assert_eq!(get_u32(&[0xFF, 0xFF, 0xFF, 0xFF]), u32::MAX);
}

#[test]
fn lump_size_multiple_gives_size_over_record() {
    let data = archive(&[("VERTEXES", i16s(&[1, 2, 3, 4, -5, -6]))]);
    let r = WadReader::new(data).unwrap();
    let v = r.read_vertex(0).unwrap();
    assert_eq!(v, vec![Vertex { x: 1, y: 2 }, Vertex { x: 3, y: 4 }, Vertex { x: -5, y: -6 }]);
}

#[test]
fn ragged_lump_is_format_error() {
    let data = archive(&[("VERTEXES", vec![1, 2, 3, 4, 5, 6])]);
    let r = WadReader::new(data).unwrap();
    assert_eq!(r.read_vertex(0), Err(WadError::Format));
    assert_eq!(r.read_linedef(0), Err(WadError::Format));
}

#[test]
fn lump_past_end_is_io_error() {
    let mut data = b"IWAD".to_vec();
    push_u32(&mut data, 1);
    push_u32(&mut data, 12);
    push_u32(&mut data, 28);
    push_u32(&mut data, 8);
    data.extend_from_slice(b"VERTEXES");
    data.extend_from_slice(&[0, 0, 0, 0]);
    let r = WadReader::new(data).unwrap();
    assert_eq!(r.read_vertex(0), Err(WadError::Io));
}

#[test]
fn missing_lump_index_is_lookup_error() {
    let data = archive(&[("VERTEXES", vec![0, 0, 0, 0])]);
    let r = WadReader::new(data).unwrap();
    assert_eq!(r.read_thing(1), Err(WadError::Lookup));
}

#[test]
fn short_header_is_format_error() {
    assert!(matches!(WadReader::new(b"IWAD\x01\x00".to_vec()), Err(WadError::Format)));
    assert!(matches!(WadReader::new(Vec::new()), Err(WadError::Format)));
}

#[test]
fn directory_past_end_is_format_error() {
    let mut data = b"IWAD".to_vec();
    push_u32(&mut data, 2);
    push_u32(&mut data, 12);
    data.extend_from_slice(&[0u8; 16]);
    assert!(matches!(WadReader::new(data), Err(WadError::Format)));
}

#[test]
fn record_layouts_decode_each_field() {
    let linedef = [1u8, 0, 2, 0, 3, 0, 4, 0, 5, 0, 6, 0, 0xFF, 0xFF].to_vec();
    let node = i16s(&[10, -20, 30, -40, 1, 2, 3, 4, 5, 6, 7, 8, 0x7FFF, -32768]);
    let ssector = vec![3u8, 0, 9, 1];
    let seg = i16s(&[1, 2, -16384, 7, 1, -3]);
    let thing = i16s(&[-100, 200, 90, 1, 7]);
    let data = archive(&[
        ("LINEDEFS", linedef),
        ("NODES", node),
        ("SSECTORS", ssector),
        ("SEGS", seg),
        ("THINGS", thing),
    ]);
    let r = WadReader::new(data).unwrap();
    assert_eq!(
        r.read_linedef(0).unwrap(),
        vec![Linedef {
            start_vertex_id: 1,
            end_vertex_id: 2,
            flags: 3,
            line_type: 4,
            sector_tag: 5,
            front_sidedef_id: 6,
            back_sidedef_id: 65535,
        }]
    );
    assert_eq!(
        r.read_node(1).unwrap(),
        vec![Node {
            x_partition: 10,
            y_partition: -20,
            dx_partition: 30,
            dy_partition: -40,
            bbox_front: BBox { top: 1, bottom: 2, left: 3, right: 4 },
            bbox_back: BBox { top: 5, bottom: 6, left: 7, right: 8 },
            front_child_id: 0x7FFF,
            back_child_id: 0x8000,
        }]
    );
    assert_eq!(r.read_subsector(2).unwrap(), vec![SubSector { seg_count: 3, first_seg_id: 265 }]);
    assert_eq!(
        r.read_segment(3).unwrap(),
        vec![Seg {
            start_vertex_id: 1,
            end_vertex_id: 2,
            angle: -16384,
            linedef_id: 7,
            direction: 1,
            offset: -3,
        }]
    );
    assert_eq!(r.read_thing(4).unwrap(), vec![Thing { pos: (-100, 200), angle: 90, ttype: 1, flags: 7 }]);
}

pub fn small_map(things: Vec<u8>) -> Vec<u8> {
    archive(&[
        ("E1M1", vec![]),
        ("THINGS", things),
        ("LINEDEFS", [0u8, 0, 1, 0, 0, 0, 0, 0, 0, 0, 0, 0, 0, 0].to_vec()),
        ("SIDEDEFS", vec![]),
        ("VERTEXES", i16s(&[0, -2000, 16, -2000])),
        ("SEGS", vec![]),
        ("SSECTORS", vec![1, 0, 0, 0]),
        ("NODES", i16s(&[0, 0, 1, 0, 0, 0, 0, 0, 0, 0, 0, 0, -32768, -32767])),
        ("SECTORS", vec![]),
        ("REJECT", vec![]),
        ("BLOCKMAP", vec![]),
    ])
}

#[test]
fn map_loads_its_lumps() {
    let data = small_map(i16s(&[5, 6, 90, 1, 0]));
    let w = WadData::new(data, "E1M1\0\0\0\0").unwrap();
    assert_eq!(w.map_index, 0);
    assert_eq!(w.vertexes, vec![Vertex { x: 0, y: -2000 }, Vertex { x: 16, y: -2000 }]);
    assert_eq!(w.linedefs.len(), 1);
    assert_eq!(w.linedefs[0].end_vertex_id, 1);
    assert_eq!(w.nodes.len(), 1);
    assert_eq!(w.nodes[0].front_child_id, 0x8000);
    assert_eq!(w.nodes[0].back_child_id, 0x8001);
    assert_eq!(w.sub_sectors, vec![SubSector { seg_count: 1, first_seg_id: 0 }]);
    assert!(w.segments.is_empty());
    assert_eq!(w.things, vec![Thing { pos: (5, 6), angle: 90, ttype: 1, flags: 0 }]);
}

#[test]
fn unknown_map_is_lookup_error() {
    let data = small_map(i16s(&[5, 6, 90, 1, 0]));
    assert!(matches!(WadData::new(data, "E9M9\0\0\0\0"), Err(WadError::Lookup)));
}

#[test]
fn map_with_ragged_lump_is_format_error() {
    let data = small_map(vec![1, 2, 3]);
    assert!(matches!(WadData::new(data, "E1M1\0\0\0\0"), Err(WadError::Format)));
}

#[test]
fn map_marker_too_close_to_end_is_lookup_error() {
    let data = archive(&[("E1M1", vec![]), ("THINGS", vec![])]);
    assert!(matches!(WadData::new(data, "E1M1\0\0\0\0"), Err(WadError::Lookup)));
}

#[test]
fn engine_starts_at_first_player_start() {
    let data = small_map(i16s(&[7, 8, 45, 3004, 0, 5, 6, 90, 1, 0]));
    let e = DoomEngine::new(data, "E1M1\0\0\0\0").unwrap();
    assert_eq!(e.player.pos, (5, 6));
    assert_eq!(e.player.angle, 90);
    assert!(!e.key_state.w && !e.key_state.left);
}

#[test]
fn engine_without_player_start_is_lookup_error() {
    let data = small_map(i16s(&[7, 8, 45, 3004, 0]));
    assert!(matches!(DoomEngine::new(data, "E1M1\0\0\0\0"), Err(WadError::Lookup)));
}

#[test]
fn engine_update_moves_by_held_flags() {
    let data = small_map(i16s(&[5, 6, 90, 1, 0]));
    let mut e = DoomEngine::new(data, "E1M1\0\0\0\0").unwrap();
    e.key_state.w = true;
    e.key_state.d = true;
    e.key_state.right = true;
    e.update();
    assert_eq!(e.player.pos, (7, 8));
    assert_eq!(e.player.angle, 88);
}

#[test]
fn engine_draw_paints_lines_on_cleared_frame() {
    let data = small_map(i16s(&[5, 6, 90, 1, 0]));
    let e = DoomEngine::new(data, "E1M1\0\0\0\0").unwrap();
    let mut frame = vec![7u8; 640 * 480 * 4];
    e.draw(&mut frame);
    assert_eq!(&frame[0..4], &[0, 0, 0, 255]);
    assert_eq!(&frame[640..652], &[255u8; 12]);
    assert_eq!(&frame[652..656], &[0, 0, 0, 255]);
}

#[test]
fn stray_references_are_index_errors() {
    let data = small_map(i16s(&[5, 6, 90, 1, 0]));
    let mut w = WadData::new(data, "E1M1\0\0\0\0").unwrap();
    // The back child names subsector 1, and the map has one subsector.
    assert_eq!(w.check_references(), Err(WadError::Index));
    w.nodes[0].back_child_id = 0x8000;
    assert_eq!(w.check_references(), Ok(()));
    w.linedefs[0].end_vertex_id = 2;
    assert_eq!(w.check_references(), Err(WadError::Index));
}

#[test]
fn header_and_directory_decode_separately() {
    let data = archive(&[("THINGS", vec![]), ("NODES", vec![0u8; 28])]);
    let h = WadReader::read_header(&data).unwrap();
    assert_eq!(h.wad_type, *b"PWAD");
    assert_eq!(h.lump_count, 2);
    assert_eq!(h.init_offset, 40);
    let dir = WadReader::read_directory(&data, &h).unwrap();
    assert_eq!(dir.len(), 2);
    assert_eq!(dir[1].lump_offset, 12);
    assert_eq!(dir[1].lump_size, 28);
    assert_eq!(&dir[1].lump_name, b"NODES\0\0\0");
    assert_eq!(WadReader::read_header(&data[..11]).unwrap_err(), WadError::Format);
    assert_eq!(WadReader::read_directory(&data[..70], &h).unwrap_err(), WadError::Format);
}
