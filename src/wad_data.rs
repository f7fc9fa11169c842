use vstd::prelude::*;
use vstd::string::StringSliceAdditionalSpecFns;
use crate::data_types::{Linedef, Node, Seg, SubSector, Thing, Vertex};
use crate::bsp::SUB_SECTOR_IDENTIFIER;
use crate::wad_reader::{archive_fits, entry_at, Directory, WadError, WadReader};

verus! {

/// Positions of a map's lumps in the directory, relative to its marker.
pub const THINGS: usize = 1;
pub const LINEDEFS: usize = 2;
pub const SIDEDEFS: usize = 3;
pub const VERTEXES: usize = 4;
pub const SEGS: usize = 5;
pub const SSECTORS: usize = 6;
pub const NODES: usize = 7;
pub const SECTORS: usize = 8;
pub const REJECT: usize = 9;
pub const BLOCKMAP: usize = 10;

/// The directory entry carries exactly the name `name`.
pub open spec fn name_is(e: Directory, name: Seq<u8>) -> bool {
    e.lump_name@ == name
}

/// `i` is the first entry of `dir` named `name`.
pub open spec fn first_named(dir: Seq<Directory>, name: Seq<u8>, i: int) -> bool {
    &&& 0 <= i < dir.len()
    &&& name_is(dir[i], name)
    &&& forall|j: int| 0 <= j < i ==> !name_is(#[trigger] dir[j], name)
}

/// Whether the directory entry's name is `name`, byte for byte.
pub fn name_matches(e: &Directory, name: &[u8]) -> (r: bool)
    ensures
        r == name_is(*e, name@),
{
    if name.len() != 8 {
        return false;
    }
    let mut j: usize = 0;
    while j < 8
        invariant
            name@.len() == 8,
            j <= 8,
            forall|k: int| 0 <= k < j ==> e.lump_name@[k] == name@[k],
        decreases 8 - j,
    {
        if e.lump_name[j] != name[j] {
            return false;
        }
        j = j + 1;
    }
    assert(e.lump_name@ =~= name@);
    true
}

/// The index of the first directory entry named `name`, if any.
pub fn find_lump(dir: &Vec<Directory>, name: &[u8]) -> (r: Option<usize>)
    ensures
        match r {
            Some(i) => first_named(dir@, name@, i as int),
            None => forall|j: int| 0 <= j < dir@.len() ==> !name_is(#[trigger] dir@[j], name@),
        },
{
    let mut i: usize = 0;
    while i < dir.len()
        invariant
            i <= dir@.len(),
            forall|j: int| 0 <= j < i ==> !name_is(#[trigger] dir@[j], name@),
        decreases dir@.len() - i,
    {
        if name_matches(&dir[i], name) {
            return Some(i);
        }
        i = i + 1;
    }
    None
}

/// The decoded collections of one map, with the archive they came from.
pub struct WadData {
    pub reader: WadReader,
    pub map_index: usize,
    pub vertexes: Vec<Vertex>,
    pub linedefs: Vec<Linedef>,
    pub nodes: Vec<Node>,
    pub sub_sectors: Vec<SubSector>,
    pub segments: Vec<Seg>,
    pub things: Vec<Thing>,
}

/// The first error met when reading, in order, the vertexes, linedefs, nodes,
/// subsectors, segs and things of the map whose marker is at `m`.
pub open spec fn map_error(w: WadReader, m: int) -> Option<WadError> {
    if w.lump_error(m + VERTEXES, 4) is Some {
        w.lump_error(m + VERTEXES, 4)
    } else if w.lump_error(m + LINEDEFS, 14) is Some {
        w.lump_error(m + LINEDEFS, 14)
    } else if w.lump_error(m + NODES, 28) is Some {
        w.lump_error(m + NODES, 28)
    } else if w.lump_error(m + SSECTORS, 4) is Some {
        w.lump_error(m + SSECTORS, 4)
    } else if w.lump_error(m + SEGS, 12) is Some {
        w.lump_error(m + SEGS, 12)
    } else {
        w.lump_error(m + THINGS, 10)
    }
}

/// Why the map named `name` cannot be loaded from the archive that `w` reads,
/// if it cannot.
pub open spec fn load_error(w: WadReader, name: Seq<u8>) -> Option<WadError> {
    if exists|m: int| first_named(w.directory@, name, m) {
        map_error(w, choose|m: int| first_named(w.directory@, name, m))
    } else {
        Some(WadError::Lookup)
    }
}

/// Two readers decoded from the same bytes see the same directory.
pub(crate) proof fn lemma_same_directory(w1: WadReader, w2: WadReader)
    requires
        w1.decoded(),
        w2.decoded(),
        w1.data@ == w2.data@,
    ensures
        w1.directory@.len() == w2.directory@.len(),
        forall|i: int|
            0 <= i < w1.directory@.len() ==> {
                &&& (#[trigger] w1.directory@[i]).lump_offset == w2.directory@[i].lump_offset
                &&& w1.directory@[i].lump_size == w2.directory@[i].lump_size
                &&& w1.directory@[i].lump_name@ == w2.directory@[i].lump_name@
            },
{
    assert forall|i: int| 0 <= i < w1.directory@.len() implies {
        &&& (#[trigger] w1.directory@[i]).lump_offset == w2.directory@[i].lump_offset
        &&& w1.directory@[i].lump_size == w2.directory@[i].lump_size
        &&& w1.directory@[i].lump_name@ == w2.directory@[i].lump_name@
    } by {
        assert(entry_at(w1.data@, w1.header.init_offset + 16 * i, w1.directory@[i]));
        assert(entry_at(w2.data@, w2.header.init_offset + 16 * i, w2.directory@[i]));
    }
}

/// What is loaded from an archive depends on its bytes alone.
pub(crate) proof fn lemma_load_error_same(w1: WadReader, w2: WadReader, name: Seq<u8>)
    requires
        w1.decoded(),
        w2.decoded(),
        w1.data@ == w2.data@,
    ensures
        load_error(w1, name) == load_error(w2, name),
        forall|m: int| first_named(w1.directory@, name, m) <==> first_named(w2.directory@, name, m),
{
    lemma_same_directory(w1, w2);
    assert forall|m: int| first_named(w1.directory@, name, m) <==> first_named(
        w2.directory@,
        name,
        m,
    ) by {
        if first_named(w1.directory@, name, m) {
            assert forall|j: int| 0 <= j < m implies !name_is(#[trigger] w2.directory@[j], name) by {
                assert(!name_is(w1.directory@[j], name));
            }
        }
        if first_named(w2.directory@, name, m) {
            assert forall|j: int| 0 <= j < m implies !name_is(#[trigger] w1.directory@[j], name) by {
                assert(!name_is(w2.directory@[j], name));
            }
        }
    }
    if exists|m: int| first_named(w1.directory@, name, m) {
        let m1 = choose|m: int| first_named(w1.directory@, name, m);
        let m2 = choose|m: int| first_named(w2.directory@, name, m);
        lemma_first_unique(w1.directory@, name, m1, m2);
    }
}

pub(crate) proof fn lemma_first_unique(dir: Seq<Directory>, name: Seq<u8>, a: int, b: int)
    requires
        first_named(dir, name, a),
        first_named(dir, name, b),
    ensures
        a == b,
{
    if a < b {
        assert(!name_is(dir[a], name));
    } else if b < a {
        assert(!name_is(dir[b], name));
    }
}

/// Both vertex indices of the linedef are in range.
pub open spec fn linedef_ok(l: Linedef, n_vertexes: int) -> bool {
    l.start_vertex_id < n_vertexes && l.end_vertex_id < n_vertexes
}

/// A child reference names an existing node or an existing subsector.
pub open spec fn child_ok(id: u16, n_nodes: int, n_sub_sectors: int) -> bool {
    if id >= SUB_SECTOR_IDENTIFIER {
        id - SUB_SECTOR_IDENTIFIER < n_sub_sectors
    } else {
        id < n_nodes
    }
}

fn check_child(id: u16, n_nodes: usize, n_sub_sectors: usize) -> (r: bool)
    ensures
        r == child_ok(id, n_nodes as int, n_sub_sectors as int),
{
    if id >= SUB_SECTOR_IDENTIFIER {
        ((id - SUB_SECTOR_IDENTIFIER) as usize) < n_sub_sectors
    } else {
        (id as usize) < n_nodes
    }
}

impl WadData {
    /// Every linedef's vertices and every node's children exist.
    pub open spec fn references_valid(&self) -> bool {
        &&& forall|i: int|
            0 <= i < self.linedefs@.len() ==> linedef_ok(
                #[trigger] self.linedefs@[i],
                self.vertexes@.len() as int,
            )
        &&& forall|i: int|
            0 <= i < self.nodes@.len() ==> {
                &&& child_ok(
                    (#[trigger] self.nodes@[i]).front_child_id,
                    self.nodes@.len() as int,
                    self.sub_sectors@.len() as int,
                )
                &&& child_ok(
                    self.nodes@[i].back_child_id,
                    self.nodes@.len() as int,
                    self.sub_sectors@.len() as int,
                )
            }
    }

    /// Checks the cross-references that drawing and traversal follow; an
    /// archive from an untrusted source is checked before use.
    pub fn check_references(&self) -> (r: Result<(), WadError>)
        ensures
            r is Ok <==> self.references_valid(),
            r is Err ==> r == Err::<(), WadError>(WadError::Index),
    {
        let nv = self.vertexes.len();
        let mut i: usize = 0;
        while i < self.linedefs.len()
            invariant
                nv == self.vertexes@.len(),
                i <= self.linedefs@.len(),
                forall|k: int|
                    0 <= k < i ==> linedef_ok(#[trigger] self.linedefs@[k], nv as int),
            decreases self.linedefs@.len() - i,
        {
            let l = &self.linedefs[i];
            if (l.start_vertex_id as usize) >= nv || (l.end_vertex_id as usize) >= nv {
                return Err(WadError::Index);
            }
            i = i + 1;
        }
        let nn = self.nodes.len();
        let ns = self.sub_sectors.len();
        let mut j: usize = 0;
        while j < nn
            invariant
                nn == self.nodes@.len(),
                ns == self.sub_sectors@.len(),
                j <= nn,
                forall|k: int|
                    0 <= k < j ==> {
                        &&& child_ok((#[trigger] self.nodes@[k]).front_child_id, nn as int, ns as int)
                        &&& child_ok(self.nodes@[k].back_child_id, nn as int, ns as int)
                    },
            decreases nn - j,
        {
            let n = &self.nodes[j];
            if !check_child(n.front_child_id, nn, ns) || !check_child(n.back_child_id, nn, ns) {
                return Err(WadError::Index);
            }
            j = j + 1;
        }
        Ok(())
    }

    /// The collections are those of the map whose marker is at `map_index`.
    pub open spec fn loaded(&self) -> bool {
        let r = self.reader;
        let m = self.map_index as int;
        &&& r.decoded()
        &&& map_error(r, m) is None
        &&& self.vertexes@ == r.vertex_records(m + VERTEXES)
        &&& self.linedefs@ == r.linedef_records(m + LINEDEFS)
        &&& self.nodes@ == r.node_records(m + NODES)
        &&& self.sub_sectors@ == r.subsector_records(m + SSECTORS)
        &&& self.segments@ == r.seg_records(m + SEGS)
        &&& self.things@ == r.thing_records(m + THINGS)
    }

    /// Decodes the map named `map_name` (eight bytes, padded) from an archive.
    pub fn new(data: Vec<u8>, map_name: &str) -> (r: Result<WadData, WadError>)
        ensures
            !archive_fits(data@) ==> r == Err::<WadData, WadError>(WadError::Format),
            forall|w: WadReader|
                archive_fits(data@) && w.data@ == data@ && #[trigger] w.decoded() ==> match r {
                    Ok(_) => load_error(w, map_name.spec_bytes()) is None,
                    Err(e) => load_error(w, map_name.spec_bytes()) == Some(e),
                },
            r matches Ok(w) ==> {
                &&& w.reader.data@ == data@
                &&& w.loaded()
                &&& first_named(w.reader.directory@, map_name.spec_bytes(), w.map_index as int)
            },
    {
        let reader = match WadReader::new(data) {
            Ok(w) => w,
            Err(e) => return Err(e),
        };
        let ghost name = map_name.spec_bytes();
        proof {
            assert forall|w: WadReader|
                archive_fits(data@) && w.data@ == data@ && #[trigger] w.decoded() implies load_error(
                w,
                name,
            ) == load_error(reader, name) by {
                lemma_load_error_same(w, reader, name);
            }
        }
        let _n: usize = reader.directory.len();
        let map_index = match find_lump(&reader.directory, map_name.as_bytes()) {
            Some(m) => m,
            None => return Err(WadError::Lookup),
        };
        proof {
            lemma_first_unique(
                reader.directory@,
                name,
                map_index as int,
                choose|m: int| first_named(reader.directory@, name, m),
            );
        }
        let vertexes = match (match map_index.checked_add(VERTEXES) {
            Some(i) => reader.read_vertex(i),
            None => Err(WadError::Lookup),
        }) {
            Ok(v) => v,
            Err(e) => return Err(e),
        };
        let linedefs = match (match map_index.checked_add(LINEDEFS) {
            Some(i) => reader.read_linedef(i),
            None => Err(WadError::Lookup),
        }) {
            Ok(v) => v,
            Err(e) => return Err(e),
        };
        let nodes = match (match map_index.checked_add(NODES) {
            Some(i) => reader.read_node(i),
            None => Err(WadError::Lookup),
        }) {
            Ok(v) => v,
            Err(e) => return Err(e),
        };
        let sub_sectors = match (match map_index.checked_add(SSECTORS) {
            Some(i) => reader.read_subsector(i),
            None => Err(WadError::Lookup),
        }) {
            Ok(v) => v,
            Err(e) => return Err(e),
        };
        let segments = match (match map_index.checked_add(SEGS) {
            Some(i) => reader.read_segment(i),
            None => Err(WadError::Lookup),
        }) {
            Ok(v) => v,
            Err(e) => return Err(e),
        };
        let things = match (match map_index.checked_add(THINGS) {
            Some(i) => reader.read_thing(i),
            None => Err(WadError::Lookup),
        }) {
            Ok(v) => v,
            Err(e) => return Err(e),
        };
        Ok(WadData { reader, map_index, vertexes, linedefs, nodes, sub_sectors, segments, things })
    }
}

} // verus!
