use webgl_renderer::attribute::DataKind;
use webgl_renderer::gl;
use webgl_renderer::surface::{cell_colors, surface_geometry, triangulate_grid, COLOR_NAME, POSITION_NAME};

fn grid(u: u16, v: u16) -> Vec<Vec<(u16, u16)>> {
    (0..=u).map(|x| (0..=v).map(|y| (x, y)).collect()).collect()
}

#[test]
fn one_cell_gives_two_triangles() {
    let t = triangulate_grid(&grid(1, 1), 1, 1);
    assert_eq!(t, vec![(0, 0), (1, 0), (1, 1), (0, 0), (1, 1), (0, 1)]);
}

#[test]
fn cells_come_row_by_row() {
    let t = triangulate_grid(&grid(2, 3), 2, 3);
    assert_eq!(t.len(), 6 * 2 * 3);
    // cell (1, 2) starts at 6 * (1 * 3 + 2)
    let k = 6 * (1 * 3 + 2);
    assert_eq!(&t[k..k + 6], &[(1, 2), (2, 2), (2, 3), (1, 2), (2, 3), (1, 3)]);
}

#[test]
fn empty_grid_gives_no_vertices() {
    assert!(triangulate_grid(&grid(0, 4), 0, 4).is_empty());
    assert!(triangulate_grid(&grid(3, 0), 3, 0).is_empty());
}

#[test]
fn colors_cycle_through_palette() {
    let palette = ['r', 'l', 'b', 'a', 'f', 'y'];
    let c = cell_colors(&palette, 2, 2);
    assert_eq!(c.len(), 24);
    for (k, color) in c.iter().enumerate() {
        assert_eq!(*color, palette[k % 6]);
    }
}

#[test]
fn surface_geometry_names_positions_and_colors() {
    let points: Vec<Vec<[f32; 3]>> = (0..=1u16)
        .map(|x| (0..=1u16).map(|y| [x as f32, y as f32, 0.0]).collect())
        .collect();
    let palette = [[1.0f32, 0.0, 0.0, 1.0]; 6];
    let g = surface_geometry(&points, 1, 1, &palette);
    let entries = g.attributes();
    assert_eq!(entries.len(), 2);
    assert_eq!(entries[0].0, POSITION_NAME);
    assert_eq!(entries[1].0, COLOR_NAME);
    assert_eq!(entries[0].1.kind(), DataKind::new(3, gl::FLOAT));
    assert_eq!(entries[1].1.kind(), DataKind::new(4, gl::FLOAT));
    assert_eq!(entries[0].1.count(), 6);
    assert_eq!(entries[1].1.count(), 6);
    assert_eq!(
        entries[0].1.data(),
        &[0.0, 0.0, 0.0, 1.0, 0.0, 0.0, 1.0, 1.0, 0.0, 0.0, 0.0, 0.0, 1.0, 1.0, 0.0, 0.0, 1.0, 0.0]
    );
    assert_eq!(g.count_vertices(), 6);
}

#[test]
fn cells_share_their_diagonal() {
    let t = triangulate_grid(&grid(3, 2), 3, 2);
    for x in 0..3u16 {
        for y in 0..2u16 {
            let c = 6 * (x as usize * 2 + y as usize);
            assert_eq!(t[c], t[c + 3]);
            assert_eq!(t[c + 2], t[c + 4]);
            assert_eq!(t[c], (x, y));
            assert_eq!(t[c + 2], (x + 1, y + 1));
        }
    }
}
