use blue_prince_solvers::mora_jai_box::tile_color::TileColor::{
    Black, Blue, Gray, Green, Orange, Pink, Red, Violet, White, Yellow,
};
use blue_prince_solvers::mora_jai_box::tile_color::TilePosition::{
    BottomCenter, BottomLeft, BottomRight, MiddleCenter, MiddleLeft, MiddleRight, TopCenter,
    TopLeft, TopRight,
};
use blue_prince_solvers::mora_jai_box::tile_color::{TileColor, TilePosition, Tiles, ALL_POSITIONS};

fn sample() -> [TileColor; 9] {
    [Gray, Black, Red, Green, Yellow, Pink, Violet, Orange, White]
}

fn colors(tiles: &Tiles) -> Vec<TileColor> {
    ALL_POSITIONS.iter().map(|position| tiles.get_color(*position)).collect()
}

#[test]
fn positions_are_indexed_row_by_row() {
    assert_eq!(
        ALL_POSITIONS,
        [
            TopLeft, TopCenter, TopRight, MiddleLeft, MiddleCenter, MiddleRight, BottomLeft,
            BottomCenter, BottomRight,
        ]
    );
    for (at, position) in ALL_POSITIONS.iter().enumerate() {
        assert_eq!(position.index(), at);
    }
}

#[test]
fn neighbors_of_each_position() {
    assert_eq!(TopLeft.get_neighbors(), vec![TopCenter, MiddleLeft]);
    assert_eq!(TopCenter.get_neighbors(), vec![TopLeft, TopRight, MiddleCenter]);
    assert_eq!(TopRight.get_neighbors(), vec![TopCenter, MiddleRight]);
    assert_eq!(MiddleLeft.get_neighbors(), vec![TopLeft, MiddleCenter, BottomLeft]);
    assert_eq!(
        MiddleCenter.get_neighbors(),
        vec![TopCenter, MiddleLeft, MiddleRight, BottomCenter]
    );
    assert_eq!(MiddleRight.get_neighbors(), vec![TopRight, MiddleCenter, BottomRight]);
    assert_eq!(BottomLeft.get_neighbors(), vec![MiddleLeft, BottomCenter]);
    assert_eq!(BottomCenter.get_neighbors(), vec![MiddleCenter, BottomLeft, BottomRight]);
    assert_eq!(BottomRight.get_neighbors(), vec![MiddleRight, BottomCenter]);
}

#[test]
fn neighbors_share_an_edge() {
    for p in ALL_POSITIONS {
        let neighbors: Vec<TilePosition> = p.get_neighbors();
        for q in ALL_POSITIONS {
            let rows = (p.index() / 3).abs_diff(q.index() / 3);
            let columns = (p.index() % 3).abs_diff(q.index() % 3);
            assert_eq!(neighbors.contains(&q), rows + columns == 1);
        }
    }
}

#[test]
fn corners_edges_and_the_middle_count_their_neighbors() {
    assert_eq!(TopLeft.count_neighbors(), 2);
    assert_eq!(TopRight.count_neighbors(), 2);
    assert_eq!(BottomLeft.count_neighbors(), 2);
    assert_eq!(BottomRight.count_neighbors(), 2);
    assert_eq!(TopCenter.count_neighbors(), 3);
    assert_eq!(MiddleLeft.count_neighbors(), 3);
    assert_eq!(MiddleRight.count_neighbors(), 3);
    assert_eq!(BottomCenter.count_neighbors(), 3);
    assert_eq!(MiddleCenter.count_neighbors(), 4);
}

#[test]
fn a_new_box_has_the_colours_it_was_given() {
    let tiles = Tiles::new(sample());
    assert_eq!(colors(&tiles), sample().to_vec());
    assert_eq!(tiles.get_color(TopLeft), Gray);
    assert_eq!(tiles.get_color(MiddleCenter), Yellow);
    assert_eq!(tiles.get_color(BottomRight), White);
    assert_eq!(tiles, Tiles::new(sample()));
}

#[test]
fn set_color_changes_one_tile() {
    let mut tiles = Tiles::new(sample());
    tiles.set_color(MiddleRight, Blue);
    assert_eq!(
        colors(&tiles),
        vec![Gray, Black, Red, Green, Yellow, Blue, Violet, Orange, White]
    );
}

#[test]
fn swap_exchanges_two_tiles() {
    let mut tiles = Tiles::new(sample());
    tiles.swap(TopLeft, BottomRight);
    assert_eq!(
        colors(&tiles),
        vec![White, Black, Red, Green, Yellow, Pink, Violet, Orange, Gray]
    );
    tiles.swap(TopCenter, TopCenter);
    assert_eq!(
        colors(&tiles),
        vec![White, Black, Red, Green, Yellow, Pink, Violet, Orange, Gray]
    );
}

#[test]
fn a_gray_press_changes_nothing() {
    let tiles = Tiles::new(sample());
    tiles._gray_press();
    assert_eq!(colors(&tiles), sample().to_vec());
}

#[test]
fn a_black_press_moves_its_row_to_the_right() {
    for position in [TopLeft, TopCenter, TopRight] {
        let mut tiles = Tiles::new(sample());
        tiles.black_press(position);
        assert_eq!(
            colors(&tiles),
            vec![Red, Gray, Black, Green, Yellow, Pink, Violet, Orange, White]
        );
    }
    for position in [MiddleLeft, MiddleCenter, MiddleRight] {
        let mut tiles = Tiles::new(sample());
        tiles.black_press(position);
        assert_eq!(
            colors(&tiles),
            vec![Gray, Black, Red, Pink, Green, Yellow, Violet, Orange, White]
        );
    }
    for position in [BottomLeft, BottomCenter, BottomRight] {
        let mut tiles = Tiles::new(sample());
        tiles.black_press(position);
        assert_eq!(
            colors(&tiles),
            vec![Gray, Black, Red, Green, Yellow, Pink, White, Violet, Orange]
        );
    }
}

#[test]
fn three_black_presses_bring_the_row_back() {
    let mut tiles = Tiles::new(sample());
    tiles.black_press(MiddleCenter);
    tiles.black_press(MiddleLeft);
    tiles.black_press(MiddleRight);
    assert_eq!(colors(&tiles), sample().to_vec());
}

#[test]
fn a_red_press_turns_white_black_and_black_red() {
    let mut tiles = Tiles::new([White, Black, Red, Black, White, Gray, Blue, White, Black]);
    tiles.red_press();
    assert_eq!(
        colors(&tiles),
        vec![Black, Red, Red, Red, Black, Gray, Blue, Black, Red]
    );
    tiles.red_press();
    assert_eq!(
        colors(&tiles),
        vec![Red, Red, Red, Red, Red, Gray, Blue, Red, Red]
    );
}

#[test]
fn a_green_press_swaps_with_the_opposite_tile() {
    let mut tiles = Tiles::new(sample());
    tiles.green_press(TopLeft);
    assert_eq!(
        colors(&tiles),
        vec![White, Black, Red, Green, Yellow, Pink, Violet, Orange, Gray]
    );
    let mut tiles = Tiles::new(sample());
    tiles.green_press(MiddleRight);
    assert_eq!(
        colors(&tiles),
        vec![Gray, Black, Red, Pink, Yellow, Green, Violet, Orange, White]
    );
    let mut tiles = Tiles::new(sample());
    tiles.green_press(BottomLeft);
    assert_eq!(
        colors(&tiles),
        vec![Gray, Black, Violet, Green, Yellow, Pink, Red, Orange, White]
    );
    let mut tiles = Tiles::new(sample());
    tiles.green_press(MiddleCenter);
    assert_eq!(colors(&tiles), sample().to_vec());
}

#[test]
fn a_yellow_press_moves_the_tile_up() {
    let mut tiles = Tiles::new(sample());
    tiles.yellow_press(MiddleCenter);
    assert_eq!(
        colors(&tiles),
        vec![Gray, Yellow, Red, Green, Black, Pink, Violet, Orange, White]
    );
    let mut tiles = Tiles::new(sample());
    tiles.yellow_press(BottomRight);
    assert_eq!(
        colors(&tiles),
        vec![Gray, Black, Red, Green, Yellow, White, Violet, Orange, Pink]
    );
    for position in [TopLeft, TopCenter, TopRight] {
        let mut tiles = Tiles::new(sample());
        tiles.yellow_press(position);
        assert_eq!(colors(&tiles), sample().to_vec());
    }
}

#[test]
fn a_violet_press_moves_the_tile_down() {
    let mut tiles = Tiles::new(sample());
    tiles.violet_press(TopLeft);
    assert_eq!(
        colors(&tiles),
        vec![Green, Black, Red, Gray, Yellow, Pink, Violet, Orange, White]
    );
    let mut tiles = Tiles::new(sample());
    tiles.violet_press(MiddleCenter);
    assert_eq!(
        colors(&tiles),
        vec![Gray, Black, Red, Green, Orange, Pink, Violet, Yellow, White]
    );
    for position in [BottomLeft, BottomCenter, BottomRight] {
        let mut tiles = Tiles::new(sample());
        tiles.violet_press(position);
        assert_eq!(colors(&tiles), sample().to_vec());
    }
}

#[test]
fn a_white_press_leaves_the_tile_gray() {
    // Next to a gray tile.
    let mut tiles = Tiles::new(sample());
    tiles.white_press(TopCenter);
    assert_eq!(
        colors(&tiles),
        vec![Gray, Gray, Red, Green, Yellow, Pink, Violet, Orange, White]
    );
    // Next to no gray tile.
    let mut tiles = Tiles::new(sample());
    tiles.white_press(BottomRight);
    assert_eq!(
        colors(&tiles),
        vec![Gray, Black, Red, Green, Yellow, Pink, Violet, Orange, Gray]
    );
}

#[test]
fn a_blue_press_copies_the_middle_tile() {
    let mut tiles = Tiles::new(sample());
    tiles.blue_press(TopRight);
    assert_eq!(
        colors(&tiles),
        vec![Gray, Black, Yellow, Green, Yellow, Pink, Violet, Orange, White]
    );
    let mut tiles = Tiles::new(sample());
    tiles.blue_press(MiddleCenter);
    assert_eq!(colors(&tiles), sample().to_vec());
}
