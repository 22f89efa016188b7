//! Tests for the engine's pieces: energy estimation, the cumulative table,
//! and seam backtracing.

use seamstress::cumulative::cumulative_energy;
use seamstress::energy::energy_map;
use seamstress::grid::convert_pos_to_pix;
use seamstress::seam::{backtrace_seam, get_upper_edges};

fn solid_raster(w: usize, h: usize, px: [u8; 3]) -> Vec<Vec<[u8; 3]>> {
    let mut raster = Vec::new();
    for _ in 0..h {
        let mut row = Vec::new();
        for _ in 0..w {
            row.push(px);
        }
        raster.push(row);
    }
    raster
}

/// One dark column followed by two columns of the given color.
fn step_raster(h: usize, bright: [u8; 3]) -> Vec<Vec<[u8; 3]>> {
    let mut raster = Vec::new();
    for _ in 0..h {
        raster.push(vec![[0, 0, 0], bright, bright]);
    }
    raster
}

#[test]
fn cumulative_table_scenario() {
    let em: Vec<Vec<u16>> = vec![
        vec![9, 9, 9, 9, 9],
        vec![9, 1, 9, 9, 9],
        vec![9, 9, 1, 9, 9],
    ];
    let ct = cumulative_energy(&em, 5, 3);
    assert_eq!(ct[0], vec![9u64, 9, 9, 9, 9]);
    assert_eq!(ct[1], vec![18u64, 10, 18, 18, 18]);
    assert_eq!(ct[2], vec![19u64, 19, 11, 27, 27]);
    // The minimum of the last row is 11 = 9 + 1 + 1, at column 2.
    assert_eq!(*ct[2].iter().min().unwrap(), 11);
    assert_eq!(ct[2].iter().position(|&x| x == 11).unwrap(), 2);
}

#[test]
fn backtrace_scenario_seam() {
    let em: Vec<Vec<u16>> = vec![
        vec![9, 9, 9, 9, 9],
        vec![9, 1, 9, 9, 9],
        vec![9, 9, 1, 9, 9],
    ];
    let ct = cumulative_energy(&em, 5, 3);
    let seam = backtrace_seam(&ct, 5, 3);
    // Row 2 starts at the minimum, rows above follow the cheap cells; the
    // tie in row 0 between columns 0, 1 and 2 goes to the leftmost.
    assert_eq!(seam, vec![(0, 0), (1, 1), (2, 2)]);
}

#[test]
fn backtrace_ties_go_left() {
    let em: Vec<Vec<u16>> = vec![vec![5, 5, 5, 5], vec![5, 5, 5, 5], vec![5, 5, 5, 5]];
    let ct = cumulative_energy(&em, 4, 3);
    let seam = backtrace_seam(&ct, 4, 3);
    assert_eq!(seam, vec![(0, 0), (0, 1), (0, 2)]);
}

#[test]
fn cumulative_single_cell() {
    let em: Vec<Vec<u16>> = vec![vec![7]];
    let ct = cumulative_energy(&em, 1, 1);
    assert_eq!(ct, vec![vec![7u64]]);
}

#[test]
fn cumulative_clips_at_borders() {
    // Border columns only look at the two cells above them.
    let em: Vec<Vec<u16>> = vec![vec![4, 9, 2], vec![1, 1, 1]];
    let ct = cumulative_energy(&em, 3, 2);
    assert_eq!(ct[1], vec![1u64 + 4, 1 + 2, 1 + 2]);
}

#[test]
fn raising_energy_never_lowers_last_row_minimum() {
    let em1: Vec<Vec<u16>> = vec![
        vec![9, 9, 9, 9, 9],
        vec![9, 1, 9, 9, 9],
        vec![9, 9, 1, 9, 9],
    ];
    let mut em2 = em1.clone();
    em2[1][1] = 30;
    let min1 = *cumulative_energy(&em1, 5, 3)[2].iter().min().unwrap();
    let min2 = *cumulative_energy(&em2, 5, 3)[2].iter().min().unwrap();
    assert!(min1 <= min2);
    assert_eq!(min1, 11);
    assert_eq!(min2, 19);
}

#[test]
fn seam_energy_equals_last_row_minimum() {
    let em: Vec<Vec<u16>> = vec![
        vec![3, 8, 2, 7],
        vec![5, 1, 6, 4],
        vec![9, 2, 3, 8],
    ];
    let ct = cumulative_energy(&em, 4, 3);
    let seam = backtrace_seam(&ct, 4, 3);
    let total: u64 = seam.iter().map(|&(c, r)| em[r as usize][c as usize] as u64).sum();
    assert_eq!(total, *ct[2].iter().min().unwrap());
}

#[test]
fn energy_of_constant_raster_is_zero() {
    let raster = solid_raster(4, 4, [100, 100, 100]);
    let em = energy_map(&raster, 4, 4);
    for row in &em {
        for &e in row {
            assert_eq!(e, 0);
        }
    }
}

#[test]
fn energy_of_step_edge_exact() {
    // Luma jumps from 0 to 255 between columns 0 and 1, rows are identical,
    // so the horizontal Sobel response at the edge is 255 * (1 + 2 + 1) and
    // the vertical response is 0.
    let raster = step_raster(3, [255, 255, 255]);
    let em = energy_map(&raster, 3, 3);
    assert_eq!(em[1][0], 1020);
    assert_eq!(em[1][1], 1020);
    assert_eq!(em[1][2], 0);
}

#[test]
fn energy_uses_luma_weights() {
    // Pure blue has luma (722 * 255) / 10000 = 18, so the edge against black
    // responds with 18 * (1 + 2 + 1) = 72.
    let raster = step_raster(3, [0, 0, 255]);
    let em = energy_map(&raster, 3, 3);
    assert_eq!(em[1][1], 72);
}

#[test]
fn energy_dimensions_match_raster() {
    let raster = solid_raster(5, 2, [10, 200, 30]);
    let em = energy_map(&raster, 5, 2);
    assert_eq!(em.len(), 2);
    for row in &em {
        assert_eq!(row.len(), 5);
    }
}

#[test]
fn upper_edges_of_interior_position() {
    let res = get_upper_edges((6, 6), (3, 4));
    assert_eq!(res, Ok((3, vec![(2, 3), (3, 3), (4, 3)])));
}

#[test]
fn upper_edges_clip_at_left_border() {
    let res = get_upper_edges((6, 6), (0, 1));
    assert_eq!(res, Ok((0, vec![(0, 0), (1, 0)])));
}

#[test]
fn upper_edges_clip_at_right_border() {
    let res = get_upper_edges((4, 6), (3, 2));
    assert_eq!(res, Ok((1, vec![(2, 1), (3, 1)])));
}

#[test]
fn upper_edges_refused_in_first_row() {
    assert!(get_upper_edges((6, 6), (2, 0)).is_err());
}

#[test]
fn convert_positions_to_cells() {
    let mut buff: Vec<Vec<u16>> = vec![vec![10, 11, 12], vec![20, 21, 22]];
    let pos = [(2u32, 0u32), (0u32, 1u32)];
    let pxs = convert_pos_to_pix(&pos, &mut buff);
    assert_eq!(pxs, vec![12, 20]);
    assert_eq!(buff, vec![vec![10, 11, 12], vec![20, 21, 22]]);
}
