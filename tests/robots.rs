use aoc2024::point::Point;
use aoc2024::robots::{move_robots, safety_factor, Robot};

fn robot(px: isize, py: isize, vx: isize, vy: isize) -> Robot {
    Robot { pos: Point::new(px, py), vel: Point::new(vx, vy) }
}

fn example() -> Vec<Robot> {
    vec![
        robot(0, 4, 3, -3),
        robot(6, 3, -1, -3),
        robot(10, 3, -1, 2),
        robot(2, 0, 2, -1),
        robot(0, 0, 1, 3),
        robot(3, 0, -2, -2),
        robot(7, 6, -1, -3),
        robot(3, 0, -1, -2),
        robot(9, 3, 2, 3),
        robot(7, 3, -1, 2),
        robot(2, 4, 2, -3),
        robot(9, 5, -3, -3),
    ]
}

#[test]
fn day14_part1_example() {
    assert_eq!(safety_factor(&example(), 11, 7), (1, 4, 3, 1));
}

#[test]
fn a_robot_wraps_around() {
    let r = robot(2, 4, 2, -3);
    let steps: Vec<Point> = (1..=5).map(|t| r.tick(t, 11, 7).pos).collect();
    assert_eq!(
        steps,
        vec![
            Point::new(4, 1),
            Point::new(6, 5),
            Point::new(8, 2),
            Point::new(10, 6),
            Point::new(1, 3),
        ]
    );
    assert_eq!(r.tick(5, 11, 7).vel, Point::new(2, -3));
}

#[test]
fn moving_many_robots_matches_ticking_each() {
    let robots = example();
    for steps in [0isize, 3, 11, 77, 100] {
        let moved = move_robots(&robots, 11, 7, steps);
        let ticked: Vec<Point> = robots.iter().map(|r| r.tick(steps, 11, 7).pos).collect();
        assert_eq!(moved, ticked);
    }
    let back = move_robots(&robots, 11, 7, -3);
    let ticked: Vec<Point> = robots.iter().map(|r| r.tick(-3, 11, 7).pos).collect();
    assert_eq!(back, ticked);
}
