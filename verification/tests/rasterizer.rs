use mathil::colours::Colour;
use mathil::rendering::PixelCoordinate;
use mathil::rendering::Screen;
use mathil::rendering::StrokeStyle;
use mathil::rendering::within_screen;

fn colour_at(screen: &Screen, x: usize, y: usize) -> Colour {
    screen.get_pixel(x, y)
}

#[test]
fn blank_screen_holds_default_colour() {
    let background = Colour::new(10, 20, 30);
    let screen = Screen::new(3, 2, background);
    assert_eq!(screen.horizontal_resolution, 3);
    assert_eq!(screen.vertical_resolution, 2);
    for x in 0..3 {
        for y in 0..2 {
            assert_eq!(colour_at(&screen, x, y), background);
        }
    }
}

#[test]
fn set_pixel_changes_exactly_one_pixel() {
    let background = Colour::new(0, 0, 0);
    let ink = Colour::new(255, 255, 255);
    let mut screen = Screen::new(4, 4, background);
    screen.set_pixel(1, 2, ink);
    for x in 0..4 {
        for y in 0..4 {
            let expected = if x == 1 && y == 2 { ink } else { background };
            assert_eq!(colour_at(&screen, x, y), expected);
        }
    }
}

#[test]
fn within_screen_matches_resolution() {
    let screen = Screen::new(4, 3, Colour::new(0, 0, 0));
    assert!(within_screen(PixelCoordinate::new(0, 0), &screen));
    assert!(within_screen(PixelCoordinate::new(3, 2), &screen));
    assert!(!within_screen(PixelCoordinate::new(4, 0), &screen));
    assert!(!within_screen(PixelCoordinate::new(0, 3), &screen));
    assert!(!within_screen(PixelCoordinate::new(-1, 0), &screen));
    assert!(!within_screen(PixelCoordinate::new(0, -1), &screen));
}

// A 4x4 screen over the plane rectangle (0,0)-(4,4) maps the plane point
// (2,2) to the pixel coordinate (2,2); a square point of pixel radius 1
// there must recolour exactly the pixels of [1,3)x[1,3).
#[test]
fn square_point_recolours_exactly_its_box() {
    let background = Colour::new(5, 5, 5);
    let ink = Colour::new(200, 100, 50);
    let mut screen = Screen::new(4, 4, background);
    screen.render_point_square(PixelCoordinate::new(2, 2), 1, ink);
    for x in 0..4 {
        for y in 0..4 {
            let inside = (1..3).contains(&x) && (1..3).contains(&y);
            let expected = if inside { ink } else { background };
            assert_eq!(colour_at(&screen, x, y), expected, "pixel ({}, {})", x, y);
        }
    }
}

#[test]
fn square_point_clips_to_the_screen() {
    let background = Colour::new(0, 0, 0);
    let ink = Colour::new(1, 2, 3);
    let mut screen = Screen::new(3, 3, background);
    screen.render_point_square(PixelCoordinate::new(0, 0), 2, ink);
    for x in 0..3 {
        for y in 0..3 {
            let inside = x < 2 && y < 2;
            let expected = if inside { ink } else { background };
            assert_eq!(colour_at(&screen, x, y), expected);
        }
    }
}

#[test]
fn round_point_respects_squared_distance() {
    let background = Colour::new(0, 0, 0);
    let ink = Colour::new(255, 0, 0);
    let mut screen = Screen::new(5, 5, background);
    screen.render_point_round(PixelCoordinate::new(2, 2), 2, ink);
    for x in 0i32..5 {
        for y in 0i32..5 {
            let squared = (x - 2) * (x - 2) + (y - 2) * (y - 2);
            let expected = if squared < 4 { ink } else { background };
            assert_eq!(
                colour_at(&screen, x as usize, y as usize),
                expected,
                "pixel ({}, {})",
                x,
                y
            );
        }
    }
}

// The boundary of an anti-aliased stroke keeps the prior pixel colour: a
// pixel whose squared distance equals the squared radius is not touched at
// all, so blending cannot alter it.
#[test]
fn round_point_leaves_the_boundary_untouched() {
    let background = Colour::new(9, 9, 9);
    let ink = Colour::new(0, 255, 0);
    let mut screen = Screen::new(5, 5, background);
    screen.render_point_round(PixelCoordinate::new(2, 2), 2, ink);
    // (0,2), (4,2), (2,0), (2,4) sit at squared distance 4 == radius^2.
    assert_eq!(colour_at(&screen, 0, 2), background);
    assert_eq!(colour_at(&screen, 4, 2), background);
    assert_eq!(colour_at(&screen, 2, 0), background);
    assert_eq!(colour_at(&screen, 2, 4), background);
    assert_eq!(colour_at(&screen, 2, 2), ink);
}

#[test]
fn pixels_within_radius_lists_the_disc_once() {
    let screen = Screen::new(5, 5, Colour::new(0, 0, 0));
    let found = screen.pixels_within_radius(PixelCoordinate::new(2, 2), 2);
    let mut expected: Vec<(i32, i32)> = Vec::new();
    for x in 0i32..5 {
        for y in 0i32..5 {
            if (x - 2) * (x - 2) + (y - 2) * (y - 2) < 4 {
                expected.push((x, y));
            }
        }
    }
    let listed: Vec<(i32, i32)> = found.iter().map(|p| (p.x, p.y)).collect();
    assert_eq!(listed, expected);
}

#[test]
fn pixels_within_radius_zero_is_empty() {
    let screen = Screen::new(5, 5, Colour::new(0, 0, 0));
    let found = screen.pixels_within_radius(PixelCoordinate::new(2, 2), 0);
    assert!(found.is_empty());
}

#[test]
fn clone_copies_the_grid() {
    let background = Colour::new(1, 1, 1);
    let ink = Colour::new(2, 3, 4);
    let mut screen = Screen::new(3, 3, background);
    screen.set_pixel(0, 2, ink);
    let copy = screen.clone();
    for x in 0..3 {
        for y in 0..3 {
            assert_eq!(colour_at(&copy, x, y), colour_at(&screen, x, y));
        }
    }
    assert_eq!(copy.horizontal_resolution, 3);
    assert_eq!(copy.vertical_resolution, 3);
}

#[test]
fn fill_is_a_no_op_when_the_seed_already_matches() {
    let background = Colour::new(7, 7, 7);
    let mut screen = Screen::new(4, 4, background);
    let ink = Colour::new(1, 2, 3);
    screen.set_pixel(3, 3, ink);
    let filled = screen.fill(PixelCoordinate::new(1, 1), background);
    for x in 0..4 {
        for y in 0..4 {
            let expected = if x == 3 && y == 3 { ink } else { background };
            assert_eq!(colour_at(&filled, x, y), expected);
        }
    }
}

#[test]
fn fill_recolours_a_blank_screen_entirely() {
    let background = Colour::new(0, 0, 0);
    let ink = Colour::new(50, 60, 70);
    let screen = Screen::new(4, 4, background);
    let filled = screen.fill(PixelCoordinate::new(2, 2), ink);
    for x in 0..4 {
        for y in 0..4 {
            assert_eq!(colour_at(&filled, x, y), ink);
        }
    }
}

// An enclosed region is recoloured exactly: the ring that encloses the
// seed stays, and pixels of the original colour on the far side of the
// ring — disconnected from the seed — stay as well.
#[test]
fn fill_recolours_only_the_connected_component() {
    let background = Colour::new(0, 0, 0);
    let wall = Colour::new(255, 255, 255);
    let ink = Colour::new(200, 0, 0);
    let mut screen = Screen::new(5, 5, background);
    // A closed ring of wall pixels around the centre.
    for (x, y) in [
        (1, 1),
        (2, 1),
        (3, 1),
        (1, 2),
        (3, 2),
        (1, 3),
        (2, 3),
        (3, 3),
    ] {
        screen.set_pixel(x, y, wall);
    }
    let filled = screen.fill(PixelCoordinate::new(2, 2), ink);
    for x in 0..5usize {
        for y in 0..5usize {
            let expected = if x == 2 && y == 2 {
                ink
            } else if [
                (1, 1),
                (2, 1),
                (3, 1),
                (1, 2),
                (3, 2),
                (1, 3),
                (2, 3),
                (3, 3),
            ]
            .contains(&(x, y))
            {
                wall
            } else {
                background
            };
            assert_eq!(colour_at(&filled, x, y), expected, "pixel ({}, {})", x, y);
        }
    }
}

// Filling twice with the same colour changes nothing the second time.
#[test]
fn fill_is_idempotent() {
    let background = Colour::new(0, 0, 0);
    let wall = Colour::new(255, 255, 255);
    let ink = Colour::new(0, 0, 200);
    let mut screen = Screen::new(4, 4, background);
    screen.set_pixel(0, 3, wall);
    let once = screen.fill(PixelCoordinate::new(1, 1), ink);
    let reference = once.clone();
    let twice = once.fill(PixelCoordinate::new(1, 1), ink);
    for x in 0..4 {
        for y in 0..4 {
            assert_eq!(colour_at(&twice, x, y), colour_at(&reference, x, y));
        }
    }
}

#[test]
fn fill_stops_at_a_full_wall() {
    // A wall across the whole screen splits the background in two; only the
    // seed's side is recoloured.
    let background = Colour::new(0, 0, 0);
    let wall = Colour::new(9, 9, 9);
    let ink = Colour::new(1, 1, 1);
    let mut screen = Screen::new(3, 3, background);
    // Vertical wall through the middle column.
    screen.set_pixel(1, 0, wall);
    screen.set_pixel(1, 1, wall);
    screen.set_pixel(1, 2, wall);
    let filled = screen.fill(PixelCoordinate::new(0, 0), ink);
    for y in 0..3 {
        assert_eq!(colour_at(&filled, 0, y), ink);
        assert_eq!(colour_at(&filled, 1, y), wall);
        assert_eq!(colour_at(&filled, 2, y), background);
    }
}

#[test]
fn render_point_matches_its_style() {
    let background = Colour::new(0, 0, 0);
    let ink = Colour::new(20, 30, 40);
    let mut squares = Screen::new(5, 5, background);
    squares.render_point(PixelCoordinate::new(2, 2), 2, ink, StrokeStyle::Square);
    let mut rounds = Screen::new(5, 5, background);
    rounds.render_point(PixelCoordinate::new(2, 2), 2, ink, StrokeStyle::RoundAliased);
    for x in 0i32..5 {
        for y in 0i32..5 {
            let in_box = (0..4).contains(&x) && (0..4).contains(&y);
            let squared = (x - 2) * (x - 2) + (y - 2) * (y - 2);
            let square_expected = if in_box { ink } else { background };
            let round_expected = if in_box && squared < 4 { ink } else { background };
            assert_eq!(colour_at(&squares, x as usize, y as usize), square_expected);
            assert_eq!(colour_at(&rounds, x as usize, y as usize), round_expected);
        }
    }
}

#[test]
fn render_points_stamps_each_centre_in_order() {
    let background = Colour::new(0, 0, 0);
    let ink = Colour::new(200, 200, 200);
    let mut screen = Screen::new(6, 3, background);
    let centres = vec![PixelCoordinate::new(1, 1), PixelCoordinate::new(4, 1)];
    screen.render_points(&centres, 1, ink, StrokeStyle::Square);
    for x in 0i32..6 {
        for y in 0i32..3 {
            let covered = (y == 0 || y == 1) && (x == 0 || x == 1 || x == 3 || x == 4);
            let expected = if covered { ink } else { background };
            assert_eq!(
                colour_at(&screen, x as usize, y as usize),
                expected,
                "pixel ({}, {})",
                x,
                y
            );
        }
    }
}
