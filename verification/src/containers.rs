use vstd::prelude::*;
use crate::mesh::{face_corner, face_normal, face_vertices, push_face, tile_column, tile_row, uv_corner, Mesh, MeshVertex};
use crate::world::WorldData;

verus! {

broadcast use vstd::string::to_string_from_display_ensures_for_str;

/// Calls `String::push`, which appends the character to the end of the
/// string.
#[verifier::external_body]
fn push_char(s: &mut String, c: char)
    ensures
        final(s)@ == old(s)@.push(c),
{
    s.push(c)
}

/// The decimal digit `d` (0..10).
pub open spec fn digit(d: int) -> char {
    let digits: Seq<char> = seq!['0', '1', '2', '3', '4', '5', '6', '7', '8', '9'];
    digits[d]
}

/// The decimal numeral of `n`, with a leading '-' when negative.
pub open spec fn decimal(n: int) -> Seq<char>
    decreases (if n < 0 { 1 - n } else { n }),
{
    if n < 0 {
        seq!['-'] + decimal(-n)
    } else if n < 10 {
        seq![digit(n)]
    } else {
        decimal(n / 10).push(digit(n % 10))
    }
}

/// The label shown under a hotbar slot holding `count` items: nothing for a
/// single item, else the count, padded on the left to two characters.
pub open spec fn slot_label_of(count: int) -> Seq<char> {
    if count == 1 {
        Seq::empty()
    } else if decimal(count).len() == 1 {
        seq![' '] + decimal(count)
    } else {
        decimal(count)
    }
}

proof fn lemma_decimal_len(n: int)
    ensures
        decimal(n).len() >= 1,
        decimal(n).len() == 1 ==> 0 <= n < 10,
    decreases (if n < 0 { 1 - n } else { n }),
{
    if n < 0 {
        lemma_decimal_len(-n);
    } else if n >= 10 {
        lemma_decimal_len(n / 10);
    }
}

fn digit_exec(d: u8) -> (c: char)
    requires
        d < 10,
    ensures
        c == digit(d as int),
{
    let digits: [char; 10] = ['0', '1', '2', '3', '4', '5', '6', '7', '8', '9'];
    digits[d as usize]
}

/// Appends the decimal numeral of `n` (0 ..= 128).
fn push_decimal(s: &mut String, n: u8)
    requires
        n <= 128,
    ensures
        final(s)@ == old(s)@ + decimal(n as int),
    decreases n,
{
    if n >= 10 {
        push_decimal(s, n / 10);
        push_char(s, digit_exec(n % 10));
        assert(decimal(n as int) == decimal(n as int / 10).push(digit(n as int % 10)));
    } else {
        push_char(s, digit_exec(n));
        assert(decimal(n as int) =~= seq![digit(n as int)]);
    }
}

/// The vertices of the first `n` faces of a single block centred on the
/// origin, fully lit, face `f` textured with `tiles[f]`.
pub open spec fn item_faces(tiles: Seq<i8>, n: int) -> Seq<MeshVertex>
    decreases n,
{
    if n <= 0 {
        Seq::empty()
    } else {
        item_faces(tiles, n - 1) + face_vertices(n - 1, (0, 0, 0), tiles[n - 1], seq![false, false, false, false, false, false])
    }
}

proof fn lemma_item_faces_len(tiles: Seq<i8>, n: int)
    requires
        0 <= n,
    ensures
        item_faces(tiles, n).len() == 6 * n,
    decreases n,
{
    if n > 0 {
        lemma_item_faces_len(tiles, n - 1);
    }
}

proof fn lemma_item_faces_prefix(tiles: Seq<i8>, n: int, m: int)
    requires
        0 <= m <= n,
    ensures
        item_faces(tiles, n).take(6 * m) == item_faces(tiles, m),
    decreases n,
{
    lemma_item_faces_len(tiles, n);
    lemma_item_faces_len(tiles, m);
    if m < n {
        lemma_item_faces_prefix(tiles, n - 1, m);
        lemma_item_faces_len(tiles, n - 1);
        assert(item_faces(tiles, n).take(6 * m) =~= item_faces(tiles, n - 1).take(6 * m));
    } else {
        assert(item_faces(tiles, n).take(6 * m) =~= item_faces(tiles, m));
    }
}

/// The item icon is the cube face by face, each face textured with the
/// block's own tile for that face: vertex `v` of face `f` (entry `6 f + v`)
/// sits at corner `v` of face `f`, points along that face's normal, is lit,
/// and takes its texture position from tile `tiles[f]`, with the same `f`.
pub proof fn lemma_item_faces_use_their_tiles(tiles: Seq<i8>, f: int, v: int)
    requires
        0 <= f < 6,
        0 <= v < 6,
    ensures
        item_faces(tiles, 6).len() == 36,
        ({
            let m = item_faces(tiles, 6)[6 * f + v];
            let k = face_corner(f, v);
            let u = uv_corner(v);
            &&& m.position == (k.0 as i8, k.1 as i8, k.2 as i8)
            &&& m.normal == face_normal(f)
            &&& m.shade == crate::mesh::Shade::Lit
            &&& m.uv == ((u.0 + tile_column(tiles[f] as int)) as i8, (u.1 + tile_row(tiles[f] as int)) as i8)
        }),
{
    lemma_item_faces_len(tiles, 6);
    lemma_item_faces_prefix(tiles, 6, f + 1);
    lemma_item_faces_len(tiles, f);
    assert(item_faces(tiles, 6)[6 * f + v] == item_faces(tiles, f + 1)[6 * f + v]);
    assert(item_faces(tiles, f + 1)[6 * f + v] == face_vertices(f, (0, 0, 0), tiles[f], seq![false, false, false, false, false, false])[v]);
}

/// The block can be drawn as an item: it is air, or a registered block with
/// a tile for each of its six faces.
pub open spec fn item_drawable(world: WorldData, name: Seq<char>) -> bool {
    name != "air"@ ==> {
        &&& world.block_index@.contains_key(name)
        &&& 1 <= world.block_index@[name] <= world.blocks@.len()
        &&& world.blocks@[world.block_index@[name] - 1].sides@.len() >= 6
    }
}

/// The hotbar slot reached by moving to slot `s`: below the first slot it
/// wraps to the last (8), past the last to the first (0).
pub open spec fn wrapped_slot(s: int) -> int {
    if s < 0 { 8 } else if s > 8 { 0 } else { s }
}

/// The hotbar slot selected after the mouse wheel turns `lines` lines from
/// `slot` (up moves left), wrapping as `wrapped_slot` describes.
pub fn scroll_slot(slot: i8, lines: i8) -> (r: i8)
    requires
        i8::MIN <= slot - lines <= i8::MAX,
    ensures
        r == wrapped_slot(slot - lines),
{
    let mut selected = slot - lines;
    if selected < 0 {
        selected = 8;
    }
    if selected > 8 {
        selected = 0;
    }
    selected
}

/// The hotbar slot that digit key `digit` selects: keys 1 to 9 select
/// slots 0 to 8; any other key selects none.
pub fn slot_for_digit(digit: u8) -> (r: Option<i8>)
    ensures
        r == if 1 <= digit <= 9 { Some((digit - 1) as i8) } else { None::<i8> },
{
    if 1 <= digit && digit <= 9 {
        Some((digit - 1) as i8)
    } else {
        None
    }
}

/// The player's hotbar: nine slots, each a block name and a count.
#[derive(Clone)]
pub struct Inventory {
    pub hotbar_slots: Vec<(String, i8)>,
}

impl Inventory {
    /// The starting hotbar: nine each of dirt, two grasses, oak leaves, oak
    /// log, stone, two sands and cactus.
    pub fn new() -> (inv: Self)
        ensures
            inv.hotbar_slots@.len() == 9,
            inv.hotbar_slots@[0].0@ == "dirt"@,
            inv.hotbar_slots@[1].0@ == "grass_1"@,
            inv.hotbar_slots@[2].0@ == "grass_2"@,
            inv.hotbar_slots@[3].0@ == "oak_leaves"@,
            inv.hotbar_slots@[4].0@ == "oak_log"@,
            inv.hotbar_slots@[5].0@ == "stone"@,
            inv.hotbar_slots@[6].0@ == "sand_1"@,
            inv.hotbar_slots@[7].0@ == "sand_2"@,
            inv.hotbar_slots@[8].0@ == "cactus"@,
            forall|i: int| 0 <= i < 9 ==> #[trigger] inv.hotbar_slots@[i].1 == 9,
    {
        Inventory {
            hotbar_slots: vec![
                ("dirt".to_string(), 9),
                ("grass_1".to_string(), 9),
                ("grass_2".to_string(), 9),
                ("oak_leaves".to_string(), 9),
                ("oak_log".to_string(), 9),
                ("stone".to_string(), 9),
                ("sand_1".to_string(), 9),
                ("sand_2".to_string(), 9),
                ("cactus".to_string(), 9),
            ],
        }
    }

    /// The mesh of the block named `block_name` as shown in the hotbar: a
    /// cube of edge 2 centred on the origin, fully lit, each face textured
    /// with the block's tile for it; nothing for air.
    pub fn render_item_block(world_data: &WorldData, block_name: String) -> (m: Mesh)
        requires
            item_drawable(*world_data, block_name@),
        ensures
            m.wf(),
            m@ == if block_name@ == "air"@ {
                Seq::<MeshVertex>::empty()
            } else {
                item_faces(world_data.blocks@[world_data.block_index@[block_name@] - 1].sides@, 6)
            },
    {
        let mut mesh = Mesh::new();
        let air = "air".to_string();
        if block_name == air {
            return mesh;
        }
        let block_id: usize = match world_data.block_index.get(block_name.as_str()) {
            Some(id) => *id,
            None => 1,
        };
        let sides = &world_data.blocks[block_id - 1].sides;
        let lit = vec![false, false, false, false, false, false];
        let mut f: usize = 0;
        while f < 6
            invariant
                f <= 6,
                sides@.len() >= 6,
                lit@ == seq![false, false, false, false, false, false],
                mesh.wf(),
                mesh@ == item_faces(sides@, f as int),
            decreases 6 - f,
        {
            push_face(&mut mesh, f, 0, 0, 0, sides[f], &lit);
            f = f + 1;
        }
        mesh
    }

    /// The label shown under a slot holding `count` items, as
    /// `slot_label_of` describes.
    pub fn slot_label(count: i8) -> (s: String)
        ensures
            s@ == slot_label_of(count as int),
    {
        let mut digits = String::new();
        if count < 0 {
            push_char(&mut digits, '-');
            push_decimal(&mut digits, (-(count as i16)) as u8);
            assert(digits@ =~= decimal(count as int));
        } else {
            push_decimal(&mut digits, count as u8);
        }
        if count == 1 {
            return String::new();
        }
        if 0 <= count && count < 10 {
            let mut padded = String::new();
            push_char(&mut padded, ' ');
            push_char(&mut padded, digit_exec(count as u8));
            assert(decimal(count as int) =~= seq![digit(count as int)]);
            assert(padded@ =~= seq![' '] + decimal(count as int));
            return padded;
        }
        proof { lemma_decimal_len(count as int); }
        digits
    }
}

} // verus!
