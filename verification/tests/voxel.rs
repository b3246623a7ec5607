use kami_engine::voxel::{downsample_majority, BlockType, ChunkNeighbors, VoxelChunk};

#[test]
fn downsample_majority_vote() {
    let mut chunk = VoxelChunk::new();
    // Fill a 2x2x2 region mostly with Stone (7 stone, 1 dirt).
    for y in 0..2 {
        for z in 0..2 {
            for x in 0..2 {
                chunk.set(x, y, z, BlockType::Stone);
            }
        }
    }
    chunk.set(0, 0, 0, BlockType::Dirt);
    let (data, size) = downsample_majority(&chunk, 2);
    assert_eq!(size, 8);
    // The first cell should be Stone (majority).
    assert_eq!(BlockType::from_u8(data[0]), BlockType::Stone);
}

#[test]
fn downsample_ties_go_to_the_lower_id_and_air_is_zero() {
    let mut chunk = VoxelChunk::new();
    // cell (1, 0, 0) at factor 2: 1 grass, 1 dirt
    chunk.set(2, 0, 0, BlockType::Grass);
    chunk.set(3, 1, 1, BlockType::Dirt);
    let (data, size) = downsample_majority(&chunk, 2);
    assert_eq!(size, 8);
    assert_eq!(data.len(), 512);
    assert_eq!(data[1], BlockType::Dirt.to_u8());
    assert_eq!(data[0], 0);
}

#[test]
fn downsample_layout_is_y_then_z_then_x() {
    let mut chunk = VoxelChunk::new();
    // cell (gx=1, gy=2, gz=3) at factor 4
    chunk.set(4, 8, 12, BlockType::Lava);
    let (data, size) = downsample_majority(&chunk, 4);
    assert_eq!(size, 4);
    assert_eq!(data[2 * 16 + 3 * 4 + 1], BlockType::Lava.to_u8());
    assert_eq!(data.iter().filter(|&&b| b != 0).count(), 1);
}

#[test]
fn downsample_of_a_solid_chunk() {
    let chunk = VoxelChunk::solid(BlockType::Ice);
    let (data, size) = downsample_majority(&chunk, 16);
    assert_eq!(size, 1);
    assert_eq!(data, vec![14]);
    let (data, size) = downsample_majority(&chunk, 17);
    assert_eq!(size, 0);
    assert!(data.is_empty());
}

#[test]
fn block_ids_round_trip() {
    for v in 0u8..16 {
        assert_eq!(BlockType::from_u8(v).to_u8(), v);
    }
    assert_eq!(BlockType::from_u8(200), BlockType::Air);
    assert!(!BlockType::Air.is_solid());
    assert!(BlockType::Glass.is_solid());
}

#[test]
fn chunk_set_and_get() {
    let mut chunk = VoxelChunk::new();
    chunk.set(15, 15, 15, BlockType::Ore);
    assert_eq!(chunk.get(15, 15, 15), BlockType::Ore);
    assert_eq!(chunk.get(15, 15, 14), BlockType::Air);
    let nb = ChunkNeighbors::default();
    assert!(nb.pos_x.is_none() && nb.neg_z.is_none());
}

use kami_engine::voxel::{greedy_quads, GreedyQuad};

fn mask_of(rows: &[&str]) -> Vec<Vec<BlockType>> {
    rows.iter()
        .map(|r| {
            r.chars()
                .map(|c| match c {
                    'S' => BlockType::Stone,
                    'D' => BlockType::Dirt,
                    'G' => BlockType::Grass,
                    _ => BlockType::Air,
                })
                .collect()
        })
        .collect()
}

fn q(u: usize, v: usize, w: usize, h: usize, block: BlockType) -> GreedyQuad {
    GreedyQuad { u, v, w, h, block }
}

#[test]
fn greedy_solid_mask_is_one_quad() {
    let m = mask_of(&["SSSS", "SSSS", "SSSS", "SSSS"]);
    assert_eq!(greedy_quads(&m, 4), vec![q(0, 0, 4, 4, BlockType::Stone)]);
}

#[test]
fn greedy_empty_mask_has_no_quads() {
    let m = mask_of(&["...", "...", "..."]);
    assert!(greedy_quads(&m, 3).is_empty());
    assert!(greedy_quads(&Vec::new(), 0).is_empty());
}

#[test]
fn greedy_grows_right_then_down() {
    // an L shape: the top row is taken whole, the leg below is separate
    let m = mask_of(&["SSS", "S..", "S.."]);
    assert_eq!(
        greedy_quads(&m, 3),
        vec![q(0, 0, 3, 1, BlockType::Stone), q(0, 1, 1, 2, BlockType::Stone)]
    );
}

#[test]
fn greedy_keeps_block_kinds_apart() {
    let m = mask_of(&["SSDD", "SSDD", "GGGG", "...."]);
    assert_eq!(
        greedy_quads(&m, 4),
        vec![
            q(0, 0, 2, 2, BlockType::Stone),
            q(2, 0, 2, 2, BlockType::Dirt),
            q(0, 2, 4, 1, BlockType::Grass),
        ]
    );
}

#[test]
fn greedy_height_stops_at_a_partial_row() {
    let m = mask_of(&["SS", "S."]);
    assert_eq!(
        greedy_quads(&m, 2),
        vec![q(0, 0, 2, 1, BlockType::Stone), q(0, 1, 1, 1, BlockType::Stone)]
    );
}

use kami_engine::voxel::face_mask;

fn shown(mask: &Vec<Vec<BlockType>>) -> usize {
    mask.iter().map(|row| row.iter().filter(|b| **b != BlockType::Air).count()).sum()
}

#[test]
fn transparent_block_culling_asymmetry() {
    // Stone at (0,0,0), water at (1,0,0): stone keeps its +x face, water
    // loses its -x face.
    let mut chunk = VoxelChunk::new();
    chunk.set(0, 0, 0, BlockType::Stone);
    chunk.set(1, 0, 0, BlockType::Water);
    let nb = ChunkNeighbors::default();
    let plus0 = face_mask(&chunk, &nb, 0, true, 0);
    assert_eq!(plus0[0][0], BlockType::Stone);
    let minus1 = face_mask(&chunk, &nb, 0, false, 1);
    assert_eq!(minus1[0][0], BlockType::Air);
    let mut faces = 0;
    for axis in 0..3 {
        for positive in [true, false] {
            for layer in 0..16 {
                faces += shown(&face_mask(&chunk, &nb, axis, positive, layer));
            }
        }
    }
    assert_eq!(faces, 11); // stone 6 + water 5
}

#[test]
fn two_transparent_blocks_keep_shared_faces() {
    let mut chunk = VoxelChunk::new();
    chunk.set(0, 0, 0, BlockType::Water);
    chunk.set(1, 0, 0, BlockType::Glass);
    let nb = ChunkNeighbors::default();
    let mut faces = 0;
    for axis in 0..3 {
        for positive in [true, false] {
            for layer in 0..16 {
                faces += shown(&face_mask(&chunk, &nb, axis, positive, layer));
            }
        }
    }
    assert_eq!(faces, 12);
}

#[test]
fn neighbor_culling_solid_neighbor_removes_boundary_face() {
    let mut chunk = VoxelChunk::new();
    chunk.set(15, 3, 4, BlockType::Stone);
    let open = ChunkNeighbors::default();
    assert_eq!(face_mask(&chunk, &open, 0, true, 15)[4][3], BlockType::Stone);
    let mut walled = ChunkNeighbors::default();
    walled.pos_x = Some([BlockType::Dirt; 256]);
    assert_eq!(face_mask(&chunk, &walled, 0, true, 15)[4][3], BlockType::Air);
    let mut glazed = ChunkNeighbors::default();
    glazed.pos_x = Some([BlockType::Glass; 256]);
    assert_eq!(face_mask(&chunk, &glazed, 0, true, 15)[4][3], BlockType::Stone);
}

#[test]
fn solid_chunk_top_layer_is_one_quad() {
    let chunk = VoxelChunk::solid(BlockType::Stone);
    let nb = ChunkNeighbors::default();
    let top = face_mask(&chunk, &nb, 1, true, 15);
    assert_eq!(shown(&top), 256);
    assert_eq!(greedy_quads(&top, 16).len(), 1);
    let inner = face_mask(&chunk, &nb, 1, true, 7);
    assert_eq!(shown(&inner), 0);
}
