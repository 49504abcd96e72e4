use std::collections::VecDeque;

use task_masker::entities::GameEntityType;
use task_masker::map::path_finding::{
    dimensions_from, direction_for_signs, graph_fits_tiles, graph_type_for, height_map_from, idx_to_tilepos,
    largest_world_size, layer_per_tile, update_movement_target, tilepos_to_idx, unique_tiles_from,
    Direction, GraphType, HeightedTilePos, NodeEdges, Path, TilePos, UndirectedGraph,
};

/// A square grid of `length` by `length` tiles, every column holding the
/// layers `0..=height`.
fn square_grid(length: u32, height: u32) -> Vec<HeightedTilePos> {
    let mut tiles = Vec::new();
    for x in 0..length {
        for y in 0..length {
            for z in 0..=height {
                tiles.push(HeightedTilePos::new(TilePos::new(x, y), z));
            }
        }
    }
    tiles
}

fn assert_walk(graph: &UndirectedGraph, path: &Path) {
    let nodes: Vec<usize> = path.0.iter().copied().collect();
    for pair in nodes.windows(2) {
        assert!(graph.edges().0[pair[0]].contains(&pair[1]));
    }
}

#[test]
fn tile_index_round_trip() {
    assert_eq!(13, tilepos_to_idx(2, 3, 5));
    assert_eq!(TilePos::new(2, 3), idx_to_tilepos(13, 5));
    assert_eq!(0, tilepos_to_idx(0, 0, 5));
    assert_eq!(TilePos::new(4, 4), idx_to_tilepos(24, 5));
}

#[test]
fn dimensions_of_stacked_grid() {
    assert_eq!((3, 3, 3), dimensions_from(&square_grid(3, 2)));
    assert_eq!((4, 4, 1), dimensions_from(&square_grid(4, 0)));
}

#[test]
fn air_graph_links_every_neighbour() {
    let graph = UndirectedGraph::from_tiles(GraphType::Air, square_grid(3, 0));
    assert_eq!(GraphType::Air, graph.get_node_type());
    assert_eq!(3, graph.length());
    assert_eq!(9, graph.edges().0.len());
    // the centre (1, 1): back along x, back along y, forward along y, forward along x
    assert_eq!(vec![1, 3, 5, 7], graph.edges().0[4]);
    // the corner (0, 0)
    assert_eq!(vec![1, 3], graph.edges().0[0]);
}

#[test]
fn air_path_reaches_far_corner() {
    let graph = UndirectedGraph::from_tiles(GraphType::Air, square_grid(3, 0));
    let path = graph
        .shortest_path(TilePos::new(0, 0), TilePos::new(2, 2))
        .expect("the air connects every tile");
    assert_eq!(Some(&0), path.0.front());
    assert_eq!(Some(&8), path.0.back());
    assert_eq!(5, path.0.len());
    assert_walk(&graph, &path);
}

#[test]
fn path_to_own_tile_is_that_tile() {
    let graph = UndirectedGraph::from_tiles(GraphType::Air, square_grid(2, 0));
    let path = graph
        .shortest_path(TilePos::new(1, 1), TilePos::new(1, 1))
        .expect("a tile reaches itself");
    assert_eq!(vec![3], path.0.into_iter().collect::<Vec<usize>>());
}

#[test]
fn ground_graph_needs_ground_to_stand_on() {
    // no column rises above layer 0, so there is no ground to walk on
    let flat = UndirectedGraph::from_tiles(GraphType::Ground, square_grid(3, 0));
    assert!(flat.edges().0.iter().all(|edges| edges.is_empty()));
    assert!(flat
        .shortest_path(TilePos::new(0, 0), TilePos::new(0, 1))
        .is_none());

    let raised = UndirectedGraph::from_tiles(GraphType::Ground, square_grid(3, 1));
    let path = raised
        .shortest_path(TilePos::new(0, 0), TilePos::new(2, 1))
        .expect("level ground connects every tile");
    assert_eq!(Some(&0), path.0.front());
    assert_eq!(Some(&7), path.0.back());
    assert_eq!(4, path.0.len());
    assert_walk(&raised, &path);
}

#[test]
fn ground_graph_blocks_steep_steps() {
    // column (1, 0) rises to layer 3, its neighbours stay at layer 1
    let mut tiles = square_grid(2, 1);
    tiles.push(HeightedTilePos::new(TilePos::new(1, 0), 2));
    tiles.push(HeightedTilePos::new(TilePos::new(1, 0), 3));
    let graph = UndirectedGraph::from_tiles(GraphType::Ground, tiles);
    // node 2 is (1, 0); node 0 is (0, 0); node 3 is (1, 1)
    assert!(!graph.edges().0[2].contains(&0));
    assert!(!graph.edges().0[2].contains(&3));
    assert!(graph.edges().0[1].contains(&0));
    assert!(graph
        .shortest_path(TilePos::new(0, 0), TilePos::new(1, 0))
        .is_none());
}

#[test]
fn water_graph_links_level_water_only() {
    // column (0, 1) has a tile above the water
    let mut tiles = square_grid(2, 0);
    tiles.push(HeightedTilePos::new(TilePos::new(0, 1), 1));
    let graph = UndirectedGraph::from_tiles(GraphType::Water, tiles);
    assert!(graph.edges().0[1].is_empty());
    assert!(!graph.edges().0[0].contains(&1));
    assert!(!graph.edges().0[3].contains(&1));
    let path = graph
        .shortest_path(TilePos::new(0, 0), TilePos::new(1, 1))
        .expect("the water goes around the rock");
    assert_eq!(vec![0, 2, 3], path.0.into_iter().collect::<Vec<usize>>());
}

#[test]
fn height_map_counts_stacked_layers() {
    let mut tiles = square_grid(2, 0);
    tiles.push(HeightedTilePos::new(TilePos::new(0, 1), 1));
    tiles.push(HeightedTilePos::new(TilePos::new(0, 1), 2));
    // a tile floating above a gap does not count
    tiles.push(HeightedTilePos::new(TilePos::new(1, 1), 2));
    let heights = height_map_from(&tiles);
    assert_eq!(vec![0, 2, 0, 0], heights);
}

#[test]
fn unique_tiles_are_sorted_and_distinct() {
    let tiles = vec![
        HeightedTilePos::new(TilePos::new(1, 0), 0),
        HeightedTilePos::new(TilePos::new(0, 1), 2),
        HeightedTilePos::new(TilePos::new(1, 0), 1),
        HeightedTilePos::new(TilePos::new(0, 0), 0),
        HeightedTilePos::new(TilePos::new(0, 1), 0),
    ];
    assert_eq!(
        vec![TilePos::new(0, 0), TilePos::new(0, 1), TilePos::new(1, 0)],
        unique_tiles_from(&tiles)
    );
}

#[test]
fn layer_per_tile_gives_ground_height() {
    let mut tiles = square_grid(2, 1);
    tiles.push(HeightedTilePos::new(TilePos::new(1, 1), 2));
    assert_eq!(
        vec![
            (TilePos::new(0, 0), 1),
            (TilePos::new(0, 1), 1),
            (TilePos::new(1, 0), 1),
            (TilePos::new(1, 1), 2),
        ],
        layer_per_tile(&tiles)
    );
}

#[test]
fn largest_world_size_prefers_last_of_equal_areas() {
    assert_eq!(Some((3, 2)), largest_world_size(&vec![(2, 3), (3, 2), (1, 1)]));
    assert_eq!(Some((5, 5)), largest_world_size(&vec![(2, 3), (5, 5), (1, 1)]));
    assert_eq!(None, largest_world_size(&Vec::new()));
}

#[test]
fn next_waypoint_takes_front_of_path() {
    let mut path = Path(VecDeque::from(vec![4, 5]));
    assert_eq!(Some((4, TilePos::new(1, 1))), update_movement_target(&mut path, false, 3));
    assert_eq!(vec![5], path.0.iter().copied().collect::<Vec<usize>>());

    // still travelling: nothing changes
    assert_eq!(None, update_movement_target(&mut path, true, 3));
    assert_eq!(1, path.0.len());

    let mut empty = Path(VecDeque::new());
    assert_eq!(None, update_movement_target(&mut empty, false, 3));
}

#[test]
fn direction_follows_signs() {
    assert_eq!(Direction::BottomLeft, direction_for_signs(false, false));
    assert_eq!(Direction::BottomRight, direction_for_signs(true, false));
    assert_eq!(Direction::TopLeft, direction_for_signs(false, true));
    assert_eq!(Direction::TopRight, direction_for_signs(true, true));
}

#[test]
fn entities_travel_on_their_graphs() {
    assert_eq!(GraphType::Ground, graph_type_for(GameEntityType::Walk));
    assert_eq!(GraphType::Air, graph_type_for(GameEntityType::Fly));
    assert_eq!(GraphType::Water, graph_type_for(GameEntityType::Swim));
    assert_eq!(GraphType::Water, graph_type_for(GameEntityType::Environment));
}

#[test]
fn full_square_grids_fit_a_graph() {
    assert!(graph_fits_tiles(&square_grid(3, 1)));
    // a missing column
    let mut gappy = square_grid(3, 0);
    gappy.retain(|tile| tile.xy != TilePos::new(1, 2));
    assert!(!graph_fits_tiles(&gappy));
    // a row longer than the grid
    let mut long_row = square_grid(2, 0);
    long_row.push(HeightedTilePos::new(TilePos::new(0, 2), 0));
    assert!(!graph_fits_tiles(&long_row));
    assert!(graph_fits_tiles(&vec![HeightedTilePos::new(TilePos::new(0, 0), 0)]));
}

#[test]
fn graph_knows_its_tiles() {
    let graph = UndirectedGraph::from_tiles(GraphType::Air, square_grid(3, 0));
    assert!(graph.contains_tile(TilePos::new(2, 2)));
    assert!(graph.contains_tile(TilePos::new(0, 0)));
    assert!(!graph.contains_tile(TilePos::new(3, 0)));
    assert!(!graph.contains_tile(TilePos::new(u32::MAX, u32::MAX)));
}

#[test]
fn air_paths_are_as_short_as_the_grid_allows() {
    let graph = UndirectedGraph::from_tiles(GraphType::Air, square_grid(4, 0));
    for (sx, sy, tx, ty) in [(0, 0, 3, 3), (3, 0, 0, 3), (1, 2, 2, 1), (2, 2, 2, 0), (0, 3, 0, 3)] {
        let path = graph
            .shortest_path(TilePos::new(sx, sy), TilePos::new(tx, ty))
            .expect("the air connects every tile");
        let manhattan = (sx as i64 - tx as i64).abs() + (sy as i64 - ty as i64).abs();
        assert_eq!(manhattan as usize + 1, path.0.len());
        assert_walk(&graph, &path);
    }
}

#[test]
fn ground_path_goes_around_cliffs() {
    // column (1, 1) towers over a 3 by 3 plateau: walkers go around it
    let mut tiles = square_grid(3, 1);
    tiles.push(HeightedTilePos::new(TilePos::new(1, 1), 2));
    tiles.push(HeightedTilePos::new(TilePos::new(1, 1), 3));
    let graph = UndirectedGraph::from_tiles(GraphType::Ground, tiles);
    let path = graph
        .shortest_path(TilePos::new(0, 1), TilePos::new(2, 1))
        .expect("the plateau's edge connects both sides");
    assert_eq!(5, path.0.len());
    assert!(!path.0.contains(&4));
    assert_walk(&graph, &path);
}

#[test]
fn links_go_both_ways() {
    let mut tiles = square_grid(3, 1);
    tiles.push(HeightedTilePos::new(TilePos::new(2, 0), 2));
    tiles.push(HeightedTilePos::new(TilePos::new(0, 2), 2));
    tiles.push(HeightedTilePos::new(TilePos::new(0, 2), 3));
    for kind in [GraphType::Ground, GraphType::Air, GraphType::Water] {
        let graph = UndirectedGraph::from_tiles(kind, tiles.clone());
        let edges = &graph.edges().0;
        for (node, neighbours) in edges.iter().enumerate() {
            for neighbour in neighbours {
                assert!(edges[*neighbour].contains(&node));
            }
        }
    }
}

#[test]
fn every_tile_index_round_trips() {
    for world_size in 1..6 {
        for x in 0..6 {
            for y in 0..world_size {
                let idx = tilepos_to_idx(x, y, world_size);
                assert_eq!(TilePos::new(x, y), idx_to_tilepos(idx, world_size));
            }
        }
    }
}

#[test]
fn shortest_path_takes_the_direct_edge_of_a_triangle() {
    let edges = NodeEdges(vec![vec![1, 2], vec![0, 2], vec![0, 1], vec![]]);
    let path = edges.shortest_path(TilePos::new(0, 0), TilePos::new(1, 0), 2).unwrap();
    assert_eq!(path.0, VecDeque::from([0, 2]));
}

#[test]
fn shortest_path_finds_nothing_for_an_isolated_node() {
    let edges = NodeEdges(vec![vec![1, 2], vec![0, 2], vec![0, 1], vec![]]);
    assert!(edges.shortest_path(TilePos::new(0, 0), TilePos::new(1, 1), 2).is_none());
}

#[test]
fn shortest_path_skips_the_longer_way_round_an_odd_cycle() {
    // a cycle of five nodes: 0-1-2-3-4-0
    let edges = NodeEdges(vec![vec![1, 4], vec![0, 2], vec![1, 3], vec![2, 4], vec![3, 0]]);
    let path = edges.shortest_path(TilePos::new(0, 0), TilePos::new(0, 3), 5).unwrap();
    assert_eq!(path.0, VecDeque::from([0, 4, 3]));
}

#[test]
fn ground_links_join_distinct_side_by_side_tiles_of_close_height() {
    let mut tiles = square_grid(3, 1);
    tiles.push(HeightedTilePos::new(TilePos::new(2, 0), 2));
    tiles.push(HeightedTilePos::new(TilePos::new(0, 2), 2));
    tiles.push(HeightedTilePos::new(TilePos::new(0, 2), 3));
    let heights = height_map_from(&tiles);
    let edges = NodeEdges::from_ground_tiles(tiles);
    assert_eq!(9, edges.0.len());
    for (node, neighbours) in edges.0.iter().enumerate() {
        assert!(!neighbours.contains(&node));
        for (k, neighbour) in neighbours.iter().enumerate() {
            assert!(!neighbours[k + 1..].contains(neighbour));
            let here = idx_to_tilepos(node, 3);
            let there = idx_to_tilepos(*neighbour, 3);
            assert_eq!(1, here.x.abs_diff(there.x) + here.y.abs_diff(there.y));
            assert!(heights[node].abs_diff(heights[*neighbour]) <= 1);
        }
    }
}

#[test]
fn air_routes_reach_every_tile_in_as_many_steps_as_the_grid_distance() {
    let graph = UndirectedGraph::from_tiles(GraphType::Air, square_grid(4, 0));
    for from in 0..16usize {
        for to in 0..16usize {
            let (a, b) = (idx_to_tilepos(from, 4), idx_to_tilepos(to, 4));
            let path = graph.shortest_path(a, b).expect("the air reaches every tile");
            let distance = a.x.abs_diff(b.x) + a.y.abs_diff(b.y);
            assert_eq!(distance as usize + 1, path.0.len());
        }
    }
}

#[test]
fn the_search_gives_the_same_route_every_time() {
    let graph = UndirectedGraph::from_tiles(GraphType::Air, square_grid(4, 0));
    let first = graph.shortest_path(TilePos::new(0, 0), TilePos::new(3, 3)).unwrap();
    let second = graph.shortest_path(TilePos::new(0, 0), TilePos::new(3, 3)).unwrap();
    assert_eq!(first.0, second.0);
}
