use vstd::prelude::*;
use crate::data_types::{BBox, Linedef, Node, Seg, SubSector, Thing, Vertex};

verus! {

/// Little-endian value of two bytes.
pub open spec fn le_u16(b0: u8, b1: u8) -> int {
    b0 as int + 256 * b1 as int
}

/// Little-endian two's-complement value of two bytes.
pub open spec fn le_i16(b0: u8, b1: u8) -> int {
    let n = le_u16(b0, b1);
    if n < 32768 { n } else { n - 65536 }
}

/// Little-endian value of four bytes.
pub open spec fn le_u32(b0: u8, b1: u8, b2: u8, b3: u8) -> int {
    b0 as int + 256 * b1 as int + 65536 * b2 as int + 16777216 * b3 as int
}

/// The two little-endian bytes of a 16-bit two's-complement value.
pub open spec fn i16_le_bytes(v: i16) -> (u8, u8) {
    let n: int = if v < 0 { v + 65536 } else { v as int };
    ((n % 256) as u8, (n / 256) as u8)
}

/// Decoding the little-endian bytes of a signed 16-bit value gives it back.
pub proof fn lemma_i16_round_trip(v: i16)
    ensures
        le_i16(i16_le_bytes(v).0, i16_le_bytes(v).1) == v,
{
}

pub fn get_u32(b: &[u8; 4]) -> (r: u32)
    ensures
        r == le_u32(b@[0], b@[1], b@[2], b@[3]),
{
    b[0] as u32 + b[1] as u32 * 256 + b[2] as u32 * 65536 + b[3] as u32 * 16777216
}

pub fn get_u16(b: &[u8]) -> (r: u16)
    requires
        b@.len() >= 2,
    ensures
        r == le_u16(b@[0], b@[1]),
{
    b[0] as u16 + 256 * b[1] as u16
}

pub fn get_i16(b: &[u8]) -> (r: i16)
    requires
        b@.len() >= 2,
    ensures
        r == le_i16(b@[0], b@[1]),
{
    let n: i32 = b[0] as i32 + b[1] as i32 * 256;
    if n < 32768 {
        n as i16
    } else {
        (n - 65536) as i16
    }
}

/// Why an archive, or a part of it, could not be used.
#[derive(Clone, Copy, Debug, PartialEq, Eq, Structural)]
pub enum WadError {
    /// The archive ends before a lump that the directory places in it.
    Io,
    /// The header or the directory is malformed, or a lump's size is not a
    /// whole number of records.
    Format,
    /// A named map, or a lump that it needs, is not in the directory.
    Lookup,
    /// BSP traversal ran out of its step budget: the tree is cyclic or malformed.
    BrokenTree,
    /// A cross-reference points outside its target collection.
    Index,
}

/// The archive header: type tag, lump count, directory offset.
#[derive(Clone, Copy, Debug, PartialEq, Eq)]
pub struct Header {
    pub wad_type: [u8; 4],
    pub lump_count: u32,
    pub init_offset: u32,
}

/// One directory record: where a lump lies, how long it is, and its name.
#[derive(Clone, Copy, Debug, PartialEq, Eq)]
pub struct Directory {
    pub lump_offset: u32,
    pub lump_size: u32,
    pub lump_name: [u8; 8],
}

pub open spec fn u32_at(d: Seq<u8>, p: int) -> int {
    le_u32(d[p], d[p + 1], d[p + 2], d[p + 3])
}

pub open spec fn u16_at(d: Seq<u8>, p: int) -> u16 {
    le_u16(d[p], d[p + 1]) as u16
}

pub open spec fn i16_at(d: Seq<u8>, p: int) -> i16 {
    le_i16(d[p], d[p + 1]) as i16
}

/// `h` is the header that the first twelve bytes of `d` hold.
pub open spec fn header_of(d: Seq<u8>, h: Header) -> bool {
    &&& h.wad_type@ == d.subrange(0, 4)
    &&& h.lump_count == u32_at(d, 4)
    &&& h.init_offset == u32_at(d, 8)
}

/// `e` is the sixteen-byte directory record at byte `p` of `d`.
pub open spec fn entry_at(d: Seq<u8>, p: int, e: Directory) -> bool {
    &&& e.lump_offset == u32_at(d, p)
    &&& e.lump_size == u32_at(d, p + 4)
    &&& e.lump_name@ == d.subrange(p + 8, p + 16)
}

/// The archive holds a whole header and a whole directory.
pub open spec fn archive_fits(d: Seq<u8>) -> bool {
    d.len() >= 12 && u32_at(d, 8) + 16 * u32_at(d, 4) <= d.len()
}

pub open spec fn vertex_at(d: Seq<u8>, p: int) -> Vertex {
    Vertex { x: i16_at(d, p), y: i16_at(d, p + 2) }
}

pub open spec fn linedef_at(d: Seq<u8>, p: int) -> Linedef {
    Linedef {
        start_vertex_id: u16_at(d, p),
        end_vertex_id: u16_at(d, p + 2),
        flags: u16_at(d, p + 4),
        line_type: u16_at(d, p + 6),
        sector_tag: u16_at(d, p + 8),
        front_sidedef_id: u16_at(d, p + 10),
        back_sidedef_id: u16_at(d, p + 12),
    }
}

pub open spec fn bbox_at(d: Seq<u8>, p: int) -> BBox {
    BBox {
        top: i16_at(d, p),
        bottom: i16_at(d, p + 2),
        left: i16_at(d, p + 4),
        right: i16_at(d, p + 6),
    }
}

pub open spec fn node_at(d: Seq<u8>, p: int) -> Node {
    Node {
        x_partition: i16_at(d, p),
        y_partition: i16_at(d, p + 2),
        dx_partition: i16_at(d, p + 4),
        dy_partition: i16_at(d, p + 6),
        bbox_front: bbox_at(d, p + 8),
        bbox_back: bbox_at(d, p + 16),
        front_child_id: u16_at(d, p + 24),
        back_child_id: u16_at(d, p + 26),
    }
}

pub open spec fn subsector_at(d: Seq<u8>, p: int) -> SubSector {
    SubSector { seg_count: u16_at(d, p), first_seg_id: u16_at(d, p + 2) }
}

pub open spec fn seg_at(d: Seq<u8>, p: int) -> Seg {
    Seg {
        start_vertex_id: u16_at(d, p),
        end_vertex_id: u16_at(d, p + 2),
        angle: i16_at(d, p + 4),
        linedef_id: u16_at(d, p + 6),
        direction: u16_at(d, p + 8),
        offset: i16_at(d, p + 10),
    }
}

pub open spec fn thing_at(d: Seq<u8>, p: int) -> Thing {
    Thing {
        pos: (i16_at(d, p), i16_at(d, p + 2)),
        angle: i16_at(d, p + 4),
        ttype: u16_at(d, p + 6),
        flags: u16_at(d, p + 8),
    }
}

fn u16_from(d: &[u8], p: usize) -> (r: u16)
    requires
        p + 2 <= d@.len(),
    ensures
        r == u16_at(d@, p as int),
{
    let _n: usize = d.len();
    get_u16(&d[p..p + 2])
}

fn i16_from(d: &[u8], p: usize) -> (r: i16)
    requires
        p + 2 <= d@.len(),
    ensures
        r == i16_at(d@, p as int),
{
    let _n: usize = d.len();
    get_i16(&d[p..p + 2])
}

/// Reads the little-endian `u32` at byte `p`.
fn u32_from(d: &[u8], p: usize) -> (r: u32)
    requires
        p + 4 <= d@.len(),
    ensures
        r == u32_at(d@, p as int),
{
    let b: [u8; 4] = [d[p], d[p + 1], d[p + 2], d[p + 3]];
    assert(b@ == seq![d@[p as int], d@[p + 1], d@[p + 2], d@[p + 3]]);
    get_u32(&b)
}

/// Copies the eight-byte name field at byte `p`.
fn name_from(d: &[u8], p: usize) -> (r: [u8; 8])
    requires
        p + 8 <= d@.len(),
    ensures
        r@ == d@.subrange(p as int, p + 8),
{
    let r: [u8; 8] = [d[p], d[p + 1], d[p + 2], d[p + 3], d[p + 4], d[p + 5], d[p + 6], d[p + 7]];
    assert(r@ =~= d@.subrange(p as int, p + 8));
    r
}

/// An archive held in memory, with its header and directory decoded.
pub struct WadReader {
    pub data: Vec<u8>,
    pub header: Header,
    pub directory: Vec<Directory>,
}

impl WadReader {
    /// The reader was built from its data: header and directory are those the
    /// bytes hold.
    pub open spec fn decoded(&self) -> bool {
        let d = self.data@;
        &&& archive_fits(d)
        &&& header_of(d, self.header)
        &&& self.directory@.len() == self.header.lump_count
        &&& forall|i: int|
            0 <= i < self.directory@.len() ==> entry_at(
                d,
                self.header.init_offset + 16 * i,
                #[trigger] self.directory@[i],
            )
    }

    /// Decodes the header and the directory of an archive.
    pub fn new(data: Vec<u8>) -> (r: Result<WadReader, WadError>)
        ensures
            r is Err <==> !archive_fits(data@),
            r is Err ==> r == Err::<WadReader, WadError>(WadError::Format),
            r matches Ok(w) ==> w.data@ == data@ && w.decoded(),
    {
        let header = match WadReader::read_header(data.as_slice()) {
            Ok(h) => h,
            Err(e) => return Err(e),
        };
        let directory = match WadReader::read_directory(data.as_slice(), &header) {
            Ok(d) => d,
            Err(e) => return Err(e),
        };
        Ok(WadReader { data, header, directory })
    }

    /// Decodes the twelve-byte header at the start of the archive.
    pub fn read_header(d: &[u8]) -> (r: Result<Header, WadError>)
        ensures
            r is Err <==> d@.len() < 12,
            r is Err ==> r == Err::<Header, WadError>(WadError::Format),
            r matches Ok(h) ==> header_of(d@, h),
    {
        if d.len() < 12 {
            return Err(WadError::Format);
        }
        let wad_type: [u8; 4] = [d[0], d[1], d[2], d[3]];
        let lump_count = u32_from(d, 4);
        let init_offset = u32_from(d, 8);
        let header = Header { wad_type, lump_count, init_offset };
        assert(header.wad_type@ =~= d@.subrange(0, 4));
        Ok(header)
    }

    /// Decodes the `lump_count` directory records at the header's offset;
    /// fails when they run past the end of the archive.
    pub fn read_directory(d: &[u8], header: &Header) -> (r: Result<Vec<Directory>, WadError>)
        ensures
            r is Err <==> header.init_offset + 16 * header.lump_count > d@.len(),
            r is Err ==> r == Err::<Vec<Directory>, WadError>(WadError::Format),
            r matches Ok(dir) ==> {
                &&& dir@.len() == header.lump_count
                &&& forall|i: int|
                    0 <= i < dir@.len() ==> entry_at(
                        d@,
                        header.init_offset + 16 * i,
                        #[trigger] dir@[i],
                    )
            },
    {
        let lump_count = header.lump_count;
        let init_offset = header.init_offset;
        let end: u64 = init_offset as u64 + 16 * (lump_count as u64);
        if end > d.len() as u64 {
            return Err(WadError::Format);
        }
        let n: usize = d.len();
        let mut directory: Vec<Directory> = Vec::new();
        let mut i: usize = 0;
        while i < lump_count as usize
            invariant
                n == d@.len(),
                init_offset as int + 16 * lump_count as int <= d@.len(),
                i <= lump_count,
                directory@.len() == i,
                forall|k: int|
                    0 <= k < i ==> entry_at(d@, init_offset + 16 * k, #[trigger] directory@[k]),
            decreases lump_count - i,
        {
            let p: usize = init_offset as usize + 16 * i;
            let lump_offset = u32_from(d, p);
            let lump_size = u32_from(d, p + 4);
            let lump_name = name_from(d, p + 8);
            directory.push(Directory { lump_offset, lump_size, lump_name });
            i = i + 1;
        }
        Ok(directory)
    }

    /// Why the lump at `lump_index` cannot be read as records of `rec` bytes,
    /// if it cannot.
    pub open spec fn lump_error(&self, lump_index: int, rec: int) -> Option<WadError> {
        if lump_index < 0 || lump_index >= self.directory@.len() {
            Some(WadError::Lookup)
        } else {
            let e = self.directory@[lump_index];
            if e.lump_size as int % rec != 0 {
                Some(WadError::Format)
            } else if e.lump_offset + e.lump_size > self.data@.len() {
                Some(WadError::Io)
            } else {
                None
            }
        }
    }

    pub open spec fn lump_offset(&self, lump_index: int) -> int {
        self.directory@[lump_index].lump_offset as int
    }

    pub open spec fn lump_count(&self, lump_index: int, rec: int) -> int {
        self.directory@[lump_index].lump_size as int / rec
    }

    /// The 4-byte records that the lump at `lump_index` holds, decoded.
    pub open spec fn vertex_records(&self, lump_index: int) -> Seq<Vertex> {
        Seq::new(
            self.lump_count(lump_index, 4) as nat,
            |k: int| vertex_at(self.data@, self.lump_offset(lump_index) + 4 * k),
        )
    }

    /// The 14-byte records that the lump at `lump_index` holds, decoded.
    pub open spec fn linedef_records(&self, lump_index: int) -> Seq<Linedef> {
        Seq::new(
            self.lump_count(lump_index, 14) as nat,
            |k: int| linedef_at(self.data@, self.lump_offset(lump_index) + 14 * k),
        )
    }

    /// The 28-byte records that the lump at `lump_index` holds, decoded.
    pub open spec fn node_records(&self, lump_index: int) -> Seq<Node> {
        Seq::new(
            self.lump_count(lump_index, 28) as nat,
            |k: int| node_at(self.data@, self.lump_offset(lump_index) + 28 * k),
        )
    }

    /// The 4-byte records that the lump at `lump_index` holds, decoded.
    pub open spec fn subsector_records(&self, lump_index: int) -> Seq<SubSector> {
        Seq::new(
            self.lump_count(lump_index, 4) as nat,
            |k: int| subsector_at(self.data@, self.lump_offset(lump_index) + 4 * k),
        )
    }

    /// The 12-byte records that the lump at `lump_index` holds, decoded.
    pub open spec fn seg_records(&self, lump_index: int) -> Seq<Seg> {
        Seq::new(
            self.lump_count(lump_index, 12) as nat,
            |k: int| seg_at(self.data@, self.lump_offset(lump_index) + 12 * k),
        )
    }

    /// The 10-byte records that the lump at `lump_index` holds, decoded.
    pub open spec fn thing_records(&self, lump_index: int) -> Seq<Thing> {
        Seq::new(
            self.lump_count(lump_index, 10) as nat,
            |k: int| thing_at(self.data@, self.lump_offset(lump_index) + 10 * k),
        )
    }

    /// Where the records of a lump start and how many there are.
    fn lump_span(&self, lump_index: usize, rec: u32) -> (r: Result<(usize, usize), WadError>)
        requires
            rec > 0,
        ensures
            match r {
                Ok((off, count)) => {
                    &&& self.lump_error(lump_index as int, rec as int) is None
                    &&& off == self.lump_offset(lump_index as int)
                    &&& count == self.lump_count(lump_index as int, rec as int)
                    &&& off + rec * count <= self.data@.len()
                },
                Err(e) => self.lump_error(lump_index as int, rec as int) == Some(e),
            },
    {
        if lump_index >= self.directory.len() {
            return Err(WadError::Lookup);
        }
        let e = &self.directory[lump_index];
        if e.lump_size % rec != 0 {
            return Err(WadError::Format);
        }
        if e.lump_offset as u64 + e.lump_size as u64 > self.data.len() as u64 {
            return Err(WadError::Io);
        }
        let count = e.lump_size / rec;
        assert(rec * count == e.lump_size) by (nonlinear_arith)
            requires
                count == e.lump_size / rec,
                e.lump_size % rec == 0,
                rec > 0,
        ;
        Ok((e.lump_offset as usize, count as usize))
    }
    /// Decodes the lump at `lump_index` as VERTEXES records of 4 bytes each.
    pub fn read_vertex(&self, lump_index: usize) -> (r: Result<Vec<Vertex>, WadError>)
        ensures
            match r {
                Ok(v) => {
                    &&& self.lump_error(lump_index as int, 4) is None
                    &&& v@ == self.vertex_records(lump_index as int)
                },
                Err(e) => self.lump_error(lump_index as int, 4) == Some(e),
            },
    {
        let (off, count) = match self.lump_span(lump_index, 4) {
            Ok(s) => s,
            Err(e) => return Err(e),
        };
        let d = self.data.as_slice();
        let n: usize = d.len();
        let mut v: Vec<Vertex> = Vec::new();
        let mut i: usize = 0;
        while i < count
            invariant
                d@ == self.data@,
                n == d@.len(),
                off + 4 * count <= d@.len(),
                i <= count,
                v@.len() == i,
                forall|k: int| 0 <= k < i ==> #[trigger] v@[k] == vertex_at(d@, off + 4 * k),
            decreases count - i,
        {
            let p: usize = off + 4 * i;
            let x = i16_from(d, p);
            let y = i16_from(d, p + 2);
            v.push(Vertex { x, y });
            i = i + 1;
        }
        assert(v@ =~= Seq::new(count as nat, |k: int| vertex_at(d@, off + 4 * k)));
        Ok(v)
    }

    /// Decodes the lump at `lump_index` as LINEDEFS records of 14 bytes each.
    pub fn read_linedef(&self, lump_index: usize) -> (r: Result<Vec<Linedef>, WadError>)
        ensures
            match r {
                Ok(v) => {
                    &&& self.lump_error(lump_index as int, 14) is None
                    &&& v@ == self.linedef_records(lump_index as int)
                },
                Err(e) => self.lump_error(lump_index as int, 14) == Some(e),
            },
    {
        let (off, count) = match self.lump_span(lump_index, 14) {
            Ok(s) => s,
            Err(e) => return Err(e),
        };
        let d = self.data.as_slice();
        let n: usize = d.len();
        let mut v: Vec<Linedef> = Vec::new();
        let mut i: usize = 0;
        while i < count
            invariant
                d@ == self.data@,
                n == d@.len(),
                off + 14 * count <= d@.len(),
                i <= count,
                v@.len() == i,
                forall|k: int| 0 <= k < i ==> #[trigger] v@[k] == linedef_at(d@, off + 14 * k),
            decreases count - i,
        {
            let p: usize = off + 14 * i;
            let start_vertex_id = u16_from(d, p);
            let end_vertex_id = u16_from(d, p + 2);
            let flags = u16_from(d, p + 4);
            let line_type = u16_from(d, p + 6);
            let sector_tag = u16_from(d, p + 8);
            let front_sidedef_id = u16_from(d, p + 10);
            let back_sidedef_id = u16_from(d, p + 12);
            v.push(
                Linedef {
                    start_vertex_id,
                    end_vertex_id,
                    flags,
                    line_type,
                    sector_tag,
                    front_sidedef_id,
                    back_sidedef_id,
                },
            );
            i = i + 1;
        }
        assert(v@ =~= Seq::new(count as nat, |k: int| linedef_at(d@, off + 14 * k)));
        Ok(v)
    }

    /// Decodes the lump at `lump_index` as NODES records of 28 bytes each.
    pub fn read_node(&self, lump_index: usize) -> (r: Result<Vec<Node>, WadError>)
        ensures
            match r {
                Ok(v) => {
                    &&& self.lump_error(lump_index as int, 28) is None
                    &&& v@ == self.node_records(lump_index as int)
                },
                Err(e) => self.lump_error(lump_index as int, 28) == Some(e),
            },
    {
        let (off, count) = match self.lump_span(lump_index, 28) {
            Ok(s) => s,
            Err(e) => return Err(e),
        };
        let d = self.data.as_slice();
        let n: usize = d.len();
        let mut v: Vec<Node> = Vec::new();
        let mut i: usize = 0;
        while i < count
            invariant
                d@ == self.data@,
                n == d@.len(),
                off + 28 * count <= d@.len(),
                i <= count,
                v@.len() == i,
                forall|k: int| 0 <= k < i ==> #[trigger] v@[k] == node_at(d@, off + 28 * k),
            decreases count - i,
        {
            let p: usize = off + 28 * i;
            let x_partition = i16_from(d, p);
            let y_partition = i16_from(d, p + 2);
            let dx_partition = i16_from(d, p + 4);
            let dy_partition = i16_from(d, p + 6);
            let bbox_front = BBox {
                top: i16_from(d, p + 8),
                bottom: i16_from(d, p + 10),
                left: i16_from(d, p + 12),
                right: i16_from(d, p + 14),
            };
            let bbox_back = BBox {
                top: i16_from(d, p + 16),
                bottom: i16_from(d, p + 18),
                left: i16_from(d, p + 20),
                right: i16_from(d, p + 22),
            };
            let front_child_id = u16_from(d, p + 24);
            let back_child_id = u16_from(d, p + 26);
            v.push(
                Node {
                    x_partition,
                    y_partition,
                    dx_partition,
                    dy_partition,
                    bbox_front,
                    bbox_back,
                    front_child_id,
                    back_child_id,
                },
            );
            i = i + 1;
        }
        assert(v@ =~= Seq::new(count as nat, |k: int| node_at(d@, off + 28 * k)));
        Ok(v)
    }

    /// Decodes the lump at `lump_index` as SSECTORS records of 4 bytes each.
    pub fn read_subsector(&self, lump_index: usize) -> (r: Result<Vec<SubSector>, WadError>)
        ensures
            match r {
                Ok(v) => {
                    &&& self.lump_error(lump_index as int, 4) is None
                    &&& v@ == self.subsector_records(lump_index as int)
                },
                Err(e) => self.lump_error(lump_index as int, 4) == Some(e),
            },
    {
        let (off, count) = match self.lump_span(lump_index, 4) {
            Ok(s) => s,
            Err(e) => return Err(e),
        };
        let d = self.data.as_slice();
        let n: usize = d.len();
        let mut v: Vec<SubSector> = Vec::new();
        let mut i: usize = 0;
        while i < count
            invariant
                d@ == self.data@,
                n == d@.len(),
                off + 4 * count <= d@.len(),
                i <= count,
                v@.len() == i,
                forall|k: int| 0 <= k < i ==> #[trigger] v@[k] == subsector_at(d@, off + 4 * k),
            decreases count - i,
        {
            let p: usize = off + 4 * i;
            let seg_count = u16_from(d, p);
            let first_seg_id = u16_from(d, p + 2);
            v.push(SubSector { seg_count, first_seg_id });
            i = i + 1;
        }
        assert(v@ =~= Seq::new(count as nat, |k: int| subsector_at(d@, off + 4 * k)));
        Ok(v)
    }

    /// Decodes the lump at `lump_index` as SEGS records of 12 bytes each.
    pub fn read_segment(&self, lump_index: usize) -> (r: Result<Vec<Seg>, WadError>)
        ensures
            match r {
                Ok(v) => {
                    &&& self.lump_error(lump_index as int, 12) is None
                    &&& v@ == self.seg_records(lump_index as int)
                },
                Err(e) => self.lump_error(lump_index as int, 12) == Some(e),
            },
    {
        let (off, count) = match self.lump_span(lump_index, 12) {
            Ok(s) => s,
            Err(e) => return Err(e),
        };
        let d = self.data.as_slice();
        let n: usize = d.len();
        let mut v: Vec<Seg> = Vec::new();
        let mut i: usize = 0;
        while i < count
            invariant
                d@ == self.data@,
                n == d@.len(),
                off + 12 * count <= d@.len(),
                i <= count,
                v@.len() == i,
                forall|k: int| 0 <= k < i ==> #[trigger] v@[k] == seg_at(d@, off + 12 * k),
            decreases count - i,
        {
            let p: usize = off + 12 * i;
            let start_vertex_id = u16_from(d, p);
            let end_vertex_id = u16_from(d, p + 2);
            let angle = i16_from(d, p + 4);
            let linedef_id = u16_from(d, p + 6);
            let direction = u16_from(d, p + 8);
            let offset = i16_from(d, p + 10);
            v.push(Seg { start_vertex_id, end_vertex_id, angle, linedef_id, direction, offset });
            i = i + 1;
        }
        assert(v@ =~= Seq::new(count as nat, |k: int| seg_at(d@, off + 12 * k)));
        Ok(v)
    }

    /// Decodes the lump at `lump_index` as THINGS records of 10 bytes each.
    pub fn read_thing(&self, lump_index: usize) -> (r: Result<Vec<Thing>, WadError>)
        ensures
            match r {
                Ok(v) => {
                    &&& self.lump_error(lump_index as int, 10) is None
                    &&& v@ == self.thing_records(lump_index as int)
                },
                Err(e) => self.lump_error(lump_index as int, 10) == Some(e),
            },
    {
        let (off, count) = match self.lump_span(lump_index, 10) {
            Ok(s) => s,
            Err(e) => return Err(e),
        };
        let d = self.data.as_slice();
        let n: usize = d.len();
        let mut v: Vec<Thing> = Vec::new();
        let mut i: usize = 0;
        while i < count
            invariant
                d@ == self.data@,
                n == d@.len(),
                off + 10 * count <= d@.len(),
                i <= count,
                v@.len() == i,
                forall|k: int| 0 <= k < i ==> #[trigger] v@[k] == thing_at(d@, off + 10 * k),
            decreases count - i,
        {
            let p: usize = off + 10 * i;
            let pos = (i16_from(d, p), i16_from(d, p + 2));
            let angle = i16_from(d, p + 4);
            let ttype = u16_from(d, p + 6);
            let flags = u16_from(d, p + 8);
            v.push(Thing { pos, angle, ttype, flags });
            i = i + 1;
        }
        assert(v@ =~= Seq::new(count as nat, |k: int| thing_at(d@, off + 10 * k)));
        Ok(v)
    }
}

} // verus!
