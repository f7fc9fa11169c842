use vstd::prelude::*;
use vstd::string::StringSliceAdditionalSpecFns;
use crate::data_types::Thing;
use crate::player::{KeyState, Player};
use crate::render::{
    clear, cleared, draw_lines, draw_nodes, draw_player, lines_drawn, marker_drawn,
    root_boxes_drawn, Viewport,
};
use crate::wad_data::{first_named, load_error, WadData, THINGS};
use crate::wad_reader::{archive_fits, WadError, WadReader};

verus! {

/// Thing type of the first player's start, which places the viewpoint.
pub const PLAYER_START: u16 = 1;

/// `i` is the first thing of `things` that is a player start.
pub open spec fn first_start(things: Seq<Thing>, i: int) -> bool {
    &&& 0 <= i < things.len()
    &&& things[i].ttype == PLAYER_START
    &&& forall|j: int| 0 <= j < i ==> (#[trigger] things[j]).ttype != PLAYER_START
}

/// The things of the map named `name`, as the reader `w` decodes them.
pub open spec fn map_things(w: WadReader, name: Seq<u8>) -> Seq<Thing> {
    w.thing_records((choose|m: int| first_named(w.directory@, name, m)) + THINGS)
}

/// The index of the first player start among `things`, if any.
pub fn find_start(things: &Vec<Thing>) -> (r: Option<usize>)
    ensures
        match r {
            Some(i) => first_start(things@, i as int),
            None => forall|j: int| 0 <= j < things@.len() ==> (#[trigger] things@[j]).ttype
                != PLAYER_START,
        },
{
    let mut i: usize = 0;
    while i < things.len()
        invariant
            i <= things@.len(),
            forall|j: int| 0 <= j < i ==> (#[trigger] things@[j]).ttype != PLAYER_START,
        decreases things@.len() - i,
    {
        if things[i].ttype == PLAYER_START {
            return Some(i);
        }
        i = i + 1;
    }
    None
}

/// A loaded map, the viewpoint moving through it, and the flags held down.
pub struct DoomEngine {
    pub wad_data: WadData,
    pub player: Player,
    pub key_state: KeyState,
    pub view: Viewport,
}

/// The frame that `draw` paints over a frame of `n` bytes.
pub open spec fn frame_drawn(n: nat, e: DoomEngine) -> Seq<u8> {
    let v = e.view;
    let f1 = lines_drawn(v, cleared(n), e.wad_data.linedefs@, e.wad_data.vertexes@);
    let f2 = marker_drawn(v, f1, e.player.pos);
    root_boxes_drawn(v, f2, e.wad_data.nodes@)
}

/// Two readers of the same bytes decode the same things for a map.
proof fn lemma_same_things(w1: WadReader, w2: WadReader, name: Seq<u8>)
    requires
        w1.decoded(),
        w2.decoded(),
        w1.data@ == w2.data@,
        load_error(w1, name) is None,
    ensures
        map_things(w1, name) == map_things(w2, name),
{
    crate::wad_data::lemma_load_error_same(w1, w2, name);
    crate::wad_data::lemma_same_directory(w1, w2);
    let m1 = choose|m: int| first_named(w1.directory@, name, m);
    let m2 = choose|m: int| first_named(w2.directory@, name, m);
    crate::wad_data::lemma_first_unique(w1.directory@, name, m1, m2);
    let k = m1 + THINGS;
    assert(w1.directory@[k].lump_offset == w2.directory@[k].lump_offset);
    assert(w1.directory@[k].lump_size == w2.directory@[k].lump_size);
    assert(map_things(w1, name) =~= map_things(w2, name));
}

impl DoomEngine {
    /// Loads the map named `map_name` and places the viewpoint at its first
    /// player start, with no flag held.
    pub fn new(data: Vec<u8>, map_name: &str) -> (r: Result<DoomEngine, WadError>)
        ensures
            !archive_fits(data@) ==> r == Err::<DoomEngine, WadError>(WadError::Format),
            forall|w: WadReader|
                archive_fits(data@) && w.data@ == data@ && #[trigger] w.decoded() ==> match load_error(
                    w,
                    map_name.spec_bytes(),
                ) {
                    Some(e) => r == Err::<DoomEngine, WadError>(e),
                    None => (r is Ok <==> exists|i: int|
                        first_start(map_things(w, map_name.spec_bytes()), i)) && (r is Err ==> r
                        == Err::<DoomEngine, WadError>(WadError::Lookup)),
                },
            r matches Ok(e) ==> {
                &&& e.wad_data.reader.data@ == data@
                &&& e.wad_data.loaded()
                &&& first_named(
                    e.wad_data.reader.directory@,
                    map_name.spec_bytes(),
                    e.wad_data.map_index as int,
                )
                &&& exists|i: int|
                    first_start(e.wad_data.things@, i) && e.player == (Player {
                        pos: e.wad_data.things@[i].pos,
                        angle: e.wad_data.things@[i].angle,
                    })
                &&& e.key_state == (KeyState {
                    up: false,
                    down: false,
                    left: false,
                    right: false,
                    w: false,
                    a: false,
                    s: false,
                    d: false,
                })
                &&& e.view == crate::render::standard_view()
            },
    {
        let wad_data = match WadData::new(data, map_name) {
            Ok(w) => w,
            Err(e) => return Err(e),
        };
        let ghost name = map_name.spec_bytes();
        proof {
            assert forall|w: WadReader|
                archive_fits(data@) && w.data@ == data@ && #[trigger] w.decoded() implies map_things(
                w,
                name,
            ) == wad_data.things@ by {
                crate::wad_data::lemma_load_error_same(w, wad_data.reader, name);
                lemma_same_things(wad_data.reader, w, name);
                crate::wad_data::lemma_first_unique(
                    wad_data.reader.directory@,
                    name,
                    wad_data.map_index as int,
                    choose|m: int| first_named(wad_data.reader.directory@, name, m),
                );
            }
        }
        let start = match find_start(&wad_data.things) {
            Some(i) => i,
            None => return Err(WadError::Lookup),
        };
        let t = &wad_data.things[start];
        let player = Player { pos: t.pos, angle: t.angle };
        let key_state = KeyState {
            up: false,
            down: false,
            left: false,
            right: false,
            w: false,
            a: false,
            s: false,
            d: false,
        };
        Ok(DoomEngine { wad_data, player, key_state, view: Viewport::standard() })
    }

    /// Advances the viewpoint by the flags currently held.
    pub fn update(&mut self)
        ensures
            Player::moved(old(self).player, final(self).player, old(self).key_state),
            final(self).wad_data == old(self).wad_data,
            final(self).key_state == old(self).key_state,
            final(self).view == old(self).view,
    {
        let k = self.key_state;
        self.player.update(&k);
    }

    /// Paints one frame: clears it, then draws the map's lines, the viewpoint
    /// marker and the root node's boxes.
    pub fn draw(&self, frame: &mut [u8])
        requires
            self.view.wf(),
        ensures
            final(frame)@ == frame_drawn(old(frame)@.len(), *self),
    {
        clear(frame);
        draw_lines(&self.view, &self.wad_data.linedefs, &self.wad_data.vertexes, frame);
        draw_player(&self.view, self.player.pos, frame);
        draw_nodes(&self.view, &self.wad_data.nodes, frame);
    }
}

} // verus!
