use ssr_bench::fixed::{multiply, FIXED_ONE};
use ssr_bench::workload::{
    generate_sequential_rows, generate_spiral_tiles, ConfigError, Direction, Row, SpiralParams,
    Tile,
};

fn example_params() -> SpiralParams {
    SpiralParams {
        canvas_width: 960 * FIXED_ONE,
        canvas_height: 720 * FIXED_ONE,
        cell_size: 10 * FIXED_ONE,
        angle_step: 200_000,
        radius_step_factor: 15_000,
    }
}

fn direction_at(angle: i128) -> Direction {
    let radians = angle as f64 / FIXED_ONE as f64;
    Direction {
        cos: (radians.cos() * FIXED_ONE as f64).round() as i64,
        sin: (radians.sin() * FIXED_ONE as f64).round() as i64,
    }
}

fn directions_for(params: &SpiralParams) -> Vec<Direction> {
    let steps = params.count_steps().expect("parameters are valid");
    (0..steps).map(|k| direction_at(params.angle(k))).collect()
}

#[test]
fn list_baseline_has_fifty_rows_of_one() {
    let rows = generate_sequential_rows(50, 1).unwrap();
    assert_eq!(rows.len(), 50);
    for (i, row) in rows.iter().enumerate() {
        assert_eq!(*row, Row { index: i, value: 1 });
    }
    assert_eq!(rows[0].index, 0);
    assert_eq!(rows[49].index, 49);
}

#[test]
fn list_of_no_rows_is_empty() {
    assert_eq!(generate_sequential_rows(0, 7).unwrap(), Vec::<Row>::new());
}

#[test]
fn list_keeps_the_fill_value() {
    let rows = generate_sequential_rows(3, 4_000_000_000).unwrap();
    assert_eq!(
        rows,
        vec![
            Row { index: 0, value: 4_000_000_000 },
            Row { index: 1, value: 4_000_000_000 },
            Row { index: 2, value: 4_000_000_000 },
        ]
    );
}

#[test]
fn negative_row_count_is_refused() {
    assert_eq!(generate_sequential_rows(-1, 1), Err(ConfigError::NegativeCount));
    assert_eq!(generate_sequential_rows(i64::MIN, 1), Err(ConfigError::NegativeCount));
}

#[test]
fn fixed_product_is_cut_toward_zero() {
    assert_eq!(multiply(3, 500_000), 1);
    assert_eq!(multiply(-3, 500_000), -1);
    assert_eq!(multiply(3, -500_000), -1);
    assert_eq!(multiply(-3, -500_000), 1);
    assert_eq!(multiply(10 * FIXED_ONE, 15_000), 150_000);
    assert_eq!(multiply(0, i64::MAX), 0);
    assert_eq!(
        multiply(i64::MIN, i64::MIN),
        (i64::MIN as i128) * (i64::MIN as i128) / 1_000_000
    );
}

#[test]
fn example_spiral_takes_2400_steps() {
    let params = example_params();
    assert_eq!(params.validate(), Ok(()));
    assert_eq!(params.growth(), 150_000);
    assert_eq!(params.count_steps(), Ok(2400));
}

#[test]
fn angle_grows_by_the_step() {
    let params = example_params();
    assert_eq!(params.angle(0), 0);
    assert_eq!(params.angle(1), 200_000);
    assert_eq!(params.angle(2399), 479_800_000);
    let wide = SpiralParams { angle_step: i64::MAX, ..params };
    assert_eq!(wide.angle(u64::MAX), (u64::MAX as i128) * (i64::MAX as i128));
}

#[test]
fn step_count_is_the_least_that_reaches_half_the_short_side() {
    let mut params = example_params();
    params.canvas_height = 300_001;
    // radius 0 and 150_000: twice 150_000 is still below 300_001
    assert_eq!(params.count_steps(), Ok(2));
    params.canvas_height = 300_000;
    assert_eq!(params.count_steps(), Ok(1));
    params.canvas_height = 1;
    assert_eq!(params.count_steps(), Ok(1));
    params.canvas_height = 0;
    assert_eq!(params.count_steps(), Ok(0));
    params.canvas_height = -5;
    assert_eq!(params.count_steps(), Ok(0));
    params.canvas_height = 5 * FIXED_ONE;
    params.canvas_width = 300_001;
    assert_eq!(params.count_steps(), Ok(2));
}

#[test]
fn example_spiral_end_to_end() {
    let params = example_params();
    let directions = directions_for(&params);
    assert_eq!(directions.len(), 2400);
    let tiles = generate_spiral_tiles(&params, &directions).unwrap();
    assert_eq!(tiles.len(), 2397);
    assert_eq!(tiles[0], Tile { id: 0, x: 480_000_000, y: 360_000_000 });
    assert_eq!(tiles[1], Tile { id: 1, x: 480_147_010, y: 360_029_800 });
    assert_eq!(tiles[2], Tile { id: 2, x: 480_276_318, y: 360_116_825 });
    assert_eq!(tiles[2396], Tile { id: 2396, x: 246_224_528, y: 633_570_924 });
}

#[test]
fn generation_is_deterministic() {
    let params = example_params();
    let directions = directions_for(&params);
    let first = generate_spiral_tiles(&params, &directions).unwrap();
    let second = generate_spiral_tiles(&params, &directions_for(&params)).unwrap();
    assert_eq!(first, second);
}

#[test]
fn tiles_stay_within_the_canvas() {
    let params = example_params();
    let tiles = generate_spiral_tiles(&params, &directions_for(&params)).unwrap();
    for tile in &tiles {
        assert!(0 <= tile.x && tile.x <= params.canvas_width - params.cell_size);
        assert!(0 <= tile.y && tile.y <= params.canvas_height - params.cell_size);
    }
}

#[test]
fn tile_ids_count_from_zero_without_gaps() {
    let params = example_params();
    let tiles = generate_spiral_tiles(&params, &directions_for(&params)).unwrap();
    for (i, tile) in tiles.iter().enumerate() {
        assert_eq!(tile.id, i);
    }
}

#[test]
fn rejected_candidates_take_no_id() {
    // Four steps on a canvas of 8 by 8 with cells of 1, the radius growing by 1 per step.
    // The second candidate lies left of the canvas.
    let params = SpiralParams {
        canvas_width: 8 * FIXED_ONE,
        canvas_height: 8 * FIXED_ONE,
        cell_size: FIXED_ONE,
        angle_step: 1,
        radius_step_factor: FIXED_ONE,
    };
    assert_eq!(params.count_steps(), Ok(4));
    let east = Direction { cos: FIXED_ONE, sin: 0 };
    let far_west = Direction { cos: -5 * FIXED_ONE, sin: 0 };
    let south = Direction { cos: 0, sin: FIXED_ONE };
    let directions = vec![east, far_west, south, east];
    let tiles = generate_spiral_tiles(&params, &directions).unwrap();
    assert_eq!(
        tiles,
        vec![
            Tile { id: 0, x: 4 * FIXED_ONE, y: 4 * FIXED_ONE },
            Tile { id: 1, x: 4 * FIXED_ONE, y: 6 * FIXED_ONE },
            Tile { id: 2, x: 7 * FIXED_ONE, y: 4 * FIXED_ONE },
        ]
    );
}

#[test]
fn a_square_that_touches_the_border_is_kept() {
    let params = SpiralParams {
        canvas_width: 8 * FIXED_ONE,
        canvas_height: 8 * FIXED_ONE,
        cell_size: FIXED_ONE,
        angle_step: 1,
        radius_step_factor: FIXED_ONE,
    };
    let east = Direction { cos: FIXED_ONE, sin: 0 };
    let west = Direction { cos: -FIXED_ONE, sin: 0 };
    // x = 4 + 3 = 7, and 7 + 1 = 8 is the border
    assert_eq!(params.place(3 * FIXED_ONE, &east), Some((7 * FIXED_ONE, 4 * FIXED_ONE)));
    // one millionth further is outside
    assert_eq!(params.place(3 * FIXED_ONE + 1, &east), None);
    // x = 4 - 4 = 0 is the border
    assert_eq!(params.place(4 * FIXED_ONE, &west), Some((0, 4 * FIXED_ONE)));
    assert_eq!(params.place(4 * FIXED_ONE + 1, &west), None);
}

#[test]
fn placement_cuts_offsets_toward_zero() {
    let params = SpiralParams {
        canvas_width: 9,
        canvas_height: 9,
        cell_size: 1,
        angle_step: 1,
        radius_step_factor: 1,
    };
    let d = Direction { cos: 500_000, sin: -500_000 };
    // centre 4 (half of 9, rounded down); offsets 1.5 and -1.5 are cut to 1 and -1
    assert_eq!(params.place(3, &d), Some((5, 3)));
}

#[test]
fn zero_angle_step_is_refused() {
    let params = SpiralParams { angle_step: 0, ..example_params() };
    assert_eq!(params.validate(), Err(ConfigError::NonPositiveAngleStep));
    assert_eq!(params.count_steps(), Err(ConfigError::NonPositiveAngleStep));
    assert_eq!(
        generate_spiral_tiles(&params, &Vec::new()),
        Err(ConfigError::NonPositiveAngleStep)
    );
}

#[test]
fn zero_radius_step_factor_is_refused() {
    let params = SpiralParams { radius_step_factor: 0, ..example_params() };
    assert_eq!(params.validate(), Err(ConfigError::NonPositiveRadiusStepFactor));
    assert_eq!(
        generate_spiral_tiles(&params, &Vec::new()),
        Err(ConfigError::NonPositiveRadiusStepFactor)
    );
}

#[test]
fn negative_steps_are_refused() {
    let params = SpiralParams { angle_step: -200_000, ..example_params() };
    assert_eq!(
        generate_spiral_tiles(&params, &Vec::new()),
        Err(ConfigError::NonPositiveAngleStep)
    );
    let params = SpiralParams { radius_step_factor: -15_000, ..example_params() };
    assert_eq!(
        generate_spiral_tiles(&params, &Vec::new()),
        Err(ConfigError::NonPositiveRadiusStepFactor)
    );
    // the angle step is looked at first
    let params = SpiralParams { angle_step: 0, radius_step_factor: 0, ..example_params() };
    assert_eq!(params.validate(), Err(ConfigError::NonPositiveAngleStep));
}

#[test]
fn a_radius_that_cannot_grow_is_refused() {
    let params = SpiralParams { cell_size: 0, ..example_params() };
    assert_eq!(params.validate(), Err(ConfigError::StalledRadius));
    let params = SpiralParams { cell_size: -10 * FIXED_ONE, ..example_params() };
    assert_eq!(params.validate(), Err(ConfigError::StalledRadius));
    // 0.000999 times 0.001 is below the smallest fixed-point number
    let params = SpiralParams { cell_size: 999, radius_step_factor: 1000, ..example_params() };
    assert_eq!(params.growth(), 0);
    assert_eq!(
        generate_spiral_tiles(&params, &Vec::new()),
        Err(ConfigError::StalledRadius)
    );
    let params = SpiralParams { cell_size: 1000, radius_step_factor: 1000, ..example_params() };
    assert_eq!(params.growth(), 1);
    assert_eq!(params.validate(), Ok(()));
}

#[test]
fn a_direction_table_of_the_wrong_length_is_refused() {
    let params = example_params();
    let mut directions = directions_for(&params);
    directions.pop();
    assert_eq!(
        generate_spiral_tiles(&params, &directions),
        Err(ConfigError::DirectionCount)
    );
    directions.push(Direction { cos: FIXED_ONE, sin: 0 });
    directions.push(Direction { cos: FIXED_ONE, sin: 0 });
    assert_eq!(
        generate_spiral_tiles(&params, &directions),
        Err(ConfigError::DirectionCount)
    );
}

#[test]
fn an_empty_canvas_has_no_tiles() {
    let params = SpiralParams { canvas_width: 0, ..example_params() };
    assert_eq!(generate_spiral_tiles(&params, &Vec::new()), Ok(Vec::new()));
    let params = SpiralParams { canvas_height: -720 * FIXED_ONE, ..example_params() };
    assert_eq!(generate_spiral_tiles(&params, &Vec::new()), Ok(Vec::new()));
}

#[test]
fn a_cell_larger_than_the_canvas_is_never_placed() {
    let params = SpiralParams {
        canvas_width: 4 * FIXED_ONE,
        canvas_height: 4 * FIXED_ONE,
        cell_size: 5 * FIXED_ONE,
        angle_step: 1,
        radius_step_factor: FIXED_ONE,
    };
    assert_eq!(params.count_steps(), Ok(1));
    let directions = vec![Direction { cos: FIXED_ONE, sin: 0 }];
    assert_eq!(generate_spiral_tiles(&params, &directions), Ok(Vec::new()));
}

#[test]
fn extreme_parameters_do_not_overflow() {
    let params = SpiralParams {
        canvas_width: i64::MAX,
        canvas_height: i64::MAX,
        cell_size: i64::MAX,
        angle_step: i64::MAX,
        radius_step_factor: i64::MAX,
    };
    assert_eq!(params.validate(), Ok(()));
    assert_eq!(params.count_steps(), Ok(1));
    let d = Direction { cos: i64::MIN, sin: i64::MAX };
    assert_eq!(params.place(i64::MAX, &d), None);
    assert_eq!(params.place(i64::MIN, &d), None);
    let tiles = generate_spiral_tiles(&params, &vec![d]).unwrap();
    // at radius zero the candidate is the centre, whose square leaves the canvas
    assert_eq!(tiles, Vec::new());
}
