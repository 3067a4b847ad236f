use snake::game_state::{tile_size, RunningState, SnakeDiedError, State, Tile};
use snake::keys::KeyValue;

const W: usize = 32;

fn head_of(s: &State) -> usize {
    s.snake()[0]
}

fn find_apple(s: &State) -> usize {
    let b = s.board();
    for i in 0..b.len() {
        if b[i].state == Tile::APPLE {
            return i;
        }
    }
    panic!("no apple on the board");
}

fn count_tiles(s: &State, t: Tile) -> usize {
    s.board().iter().filter(|g| g.state == t).count()
}

fn opposite(k: KeyValue) -> KeyValue {
    match k {
        KeyValue::UpArrow => KeyValue::DownArrow,
        KeyValue::DownArrow => KeyValue::UpArrow,
        KeyValue::LeftArrow => KeyValue::RightArrow,
        KeyValue::RightArrow => KeyValue::LeftArrow,
        _ => KeyValue::Other,
    }
}

fn step(s: &mut State, k: KeyValue) {
    s.change_direction(k);
    let r = s.move_snake();
    assert!(r.is_ok(), "unexpected death while steering");
}

/// Steers the head to `target` by one-cell steps, moving vertically first
/// and never reversing straight into the neck; when only a reversal would
/// help, it sidesteps once. Every step stays on the board and off the
/// row-wrapping links, so with a snake of at most three segments no step
/// can die. Returns the heading of the last step taken.
fn walk_to(s: &mut State, target: usize, mut heading: Option<KeyValue>) -> KeyValue {
    let mut budget = 10_000;
    while head_of(s) != target {
        assert!(budget > 0, "navigation did not converge");
        budget -= 1;
        let h = head_of(s);
        let (r, c) = (h / W, h % W);
        let (tr, tc) = (target / W, target % W);
        let mut cands: Vec<KeyValue> = Vec::new();
        if tr < r {
            cands.push(KeyValue::UpArrow);
        } else if tr > r {
            cands.push(KeyValue::DownArrow);
        }
        if tc < c {
            cands.push(KeyValue::LeftArrow);
        } else if tc > c {
            cands.push(KeyValue::RightArrow);
        }
        let rev = heading.map(opposite);
        let k = match cands.iter().copied().find(|k| Some(*k) != rev) {
            Some(k) => k,
            None => match heading.expect("a blocked step implies an earlier step") {
                KeyValue::UpArrow | KeyValue::DownArrow => {
                    if c > 0 {
                        KeyValue::LeftArrow
                    } else {
                        KeyValue::RightArrow
                    }
                }
                _ => {
                    if r > 0 {
                        KeyValue::UpArrow
                    } else {
                        KeyValue::DownArrow
                    }
                }
            },
        };
        step(s, k);
        heading = Some(k);
    }
    heading.expect("the target was the head itself")
}

#[test]
fn construction_links_match_adjacency() {
    let s = State::new(None);
    let b = s.board();
    assert_eq!(b.len(), 1024);
    for i in 0..1024usize {
        let t = &b[i];
        assert_eq!(t.index, i);
        assert_eq!(t.row, (i / 32) as i32);
        assert_eq!(t.col, (i % 32) as i32);
        assert_eq!(t.left, if i >= 1 { Some(i - 1) } else { None });
        assert_eq!(t.right, if i + 1 < 1024 { Some(i + 1) } else { None });
        assert_eq!(t.top, if i >= 32 { Some(i - 32) } else { None });
        assert_eq!(t.bottom, if i + 32 < 1024 { Some(i + 32) } else { None });
    }
}

#[test]
fn construction_places_one_snake_and_one_apple() {
    let s = State::new(None);
    let h = head_of(&s);
    let a = find_apple(&s);
    assert!(h >= W && h < W * W);
    assert!(a >= W && a < W * W);
    assert_ne!(a, h);
    assert_eq!(s.snake().len(), 1);
    assert_eq!(s.apples_collected(), 0);
    assert_eq!(count_tiles(&s, Tile::SNAKE), 1);
    assert_eq!(count_tiles(&s, Tile::APPLE), 1);
    assert_eq!(count_tiles(&s, Tile::EMPTY), 1022);
    assert!(matches!(s.running_state, RunningState::IDLE));
    assert_eq!(s.fps, 7);
}

#[test]
fn previous_best_is_kept_and_defaults_to_zero() {
    let s = State::new(Some(9));
    assert_eq!(s.previous_best(), 9);
    let s2 = State::new(None);
    assert_eq!(s2.previous_best(), 0);
}

#[test]
fn tile_size_is_the_grid_width() {
    assert_eq!(tile_size(), 32);
}

#[test]
fn one_empty_tick_moves_the_snake_by_one_cell() {
    let mut s = State::new(None);
    let h = head_of(&s);
    assert_eq!(s.apples_collected(), 0);
    assert_eq!(s.snake().len(), 1);
    let (r, c) = (h / W, h % W);
    let mut cands: Vec<(KeyValue, usize)> = vec![(KeyValue::UpArrow, h - W)];
    if r < 31 {
        cands.push((KeyValue::DownArrow, h + W));
    }
    if c > 0 {
        cands.push((KeyValue::LeftArrow, h - 1));
    }
    if c < 31 {
        cands.push((KeyValue::RightArrow, h + 1));
    }
    let mut choice: Option<(KeyValue, usize)> = None;
    for (k, t) in cands {
        if s.board()[t].state == Tile::EMPTY {
            choice = Some((k, t));
            break;
        }
    }
    let (k, t) = choice.expect("a free neighbour must exist");
    s.change_direction(k);
    assert!(s.move_snake().is_ok());
    assert_eq!(s.snake().len(), 1);
    assert_eq!(head_of(&s), t);
    assert_eq!(s.board()[t].state, Tile::SNAKE);
    assert_eq!(s.board()[h].state, Tile::EMPTY);
    assert_eq!(s.apples_collected(), 0);
    for &i in s.snake().iter() {
        assert_eq!(s.board()[i].state, Tile::SNAKE);
    }
}

#[test]
fn eating_an_apple_grows_counts_and_respawns() {
    let mut s = State::new(None);
    let a = find_apple(&s);
    walk_to(&mut s, a, None);
    assert_eq!(s.apples_collected(), 1);
    assert_eq!(s.snake().len(), 2);
    assert_eq!(s.board()[a].state, Tile::SNAKE);
    assert_eq!(count_tiles(&s, Tile::APPLE), 1);
    assert_ne!(find_apple(&s), a);
    for &i in s.snake().iter() {
        assert_eq!(s.board()[i].state, Tile::SNAKE);
    }
}

#[test]
fn off_top_left_corner_up_reports_off_screen() {
    let mut s = State::new(None);
    let h = head_of(&s);
    let (r0, c0) = (h / W, h % W);
    for _ in 0..c0 {
        step(&mut s, KeyValue::LeftArrow);
    }
    for _ in 0..r0 {
        step(&mut s, KeyValue::UpArrow);
    }
    assert_eq!(head_of(&s), 0);
    s.change_direction(KeyValue::UpArrow);
    let r = s.move_snake();
    assert!(matches!(r, Err(SnakeDiedError::OffScreen)));
    assert!(matches!(s.running_state, RunningState::IDLE));
}

#[test]
fn off_top_left_corner_left_reports_off_screen() {
    let mut s = State::new(None);
    let h = head_of(&s);
    let (r0, c0) = (h / W, h % W);
    for _ in 0..r0 {
        step(&mut s, KeyValue::UpArrow);
    }
    for _ in 0..c0 {
        step(&mut s, KeyValue::LeftArrow);
    }
    assert_eq!(head_of(&s), 0);
    s.change_direction(KeyValue::LeftArrow);
    let r = s.move_snake();
    assert!(matches!(r, Err(SnakeDiedError::OffScreen)));
    assert!(matches!(s.running_state, RunningState::IDLE));
}

#[test]
fn hitting_own_body_reports_hit_self_and_idles() {
    let mut s = State::new(None);
    let a1 = find_apple(&s);
    let h1 = walk_to(&mut s, a1, None);
    assert_eq!(s.apples_collected(), 1);
    assert_eq!(s.snake().len(), 2);
    let a2 = find_apple(&s);
    let h2 = walk_to(&mut s, a2, Some(h1));
    assert_eq!(s.apples_collected(), 2);
    assert_eq!(s.snake().len(), 3);
    s.change_direction(opposite(h2));
    let r = s.move_snake();
    assert!(matches!(r, Err(SnakeDiedError::HitSelf)));
    assert!(matches!(s.running_state, RunningState::IDLE));
    assert_eq!(s.snake().len(), 3);
    assert_eq!(s.apples_collected(), 2);
    assert_eq!(count_tiles(&s, Tile::APPLE), 1);
}

#[test]
fn toggle_cycles_between_running_and_paused_never_idle() {
    let mut s = State::new(None);
    assert!(matches!(s.running_state, RunningState::IDLE));
    s.toggle_game();
    assert!(matches!(s.running_state, RunningState::RUNNING));
    s.toggle_game();
    assert!(matches!(s.running_state, RunningState::PAUSED));
    s.toggle_game();
    assert!(matches!(s.running_state, RunningState::RUNNING));
    s.toggle_game();
    assert!(matches!(s.running_state, RunningState::PAUSED));
}

#[test]
fn unrecognized_key_changes_nothing() {
    let mut s = State::new(None);
    let board_before: Vec<(usize, Tile)> =
        s.board().iter().map(|t| (t.index, t.state)).collect();
    let snake_before = s.snake().clone();
    let score_before = s.apples_collected();
    s.change_direction(KeyValue::Space);
    s.change_direction(KeyValue::Enter);
    s.change_direction(KeyValue::Other);
    assert!(matches!(s.direction(), snake::game_state::Direction::UP));
    let board_after: Vec<(usize, Tile)> =
        s.board().iter().map(|t| (t.index, t.state)).collect();
    assert_eq!(board_before, board_after);
    assert_eq!(&snake_before, s.snake());
    assert_eq!(score_before, s.apples_collected());
}

#[test]
fn arrow_keys_set_the_direction() {
    let mut s = State::new(None);
    s.change_direction(KeyValue::DownArrow);
    assert!(matches!(s.direction(), snake::game_state::Direction::DOWN));
    s.change_direction(KeyValue::RightArrow);
    assert!(matches!(s.direction(), snake::game_state::Direction::RIGHT));
    s.change_direction(KeyValue::LeftArrow);
    assert!(matches!(s.direction(), snake::game_state::Direction::LEFT));
    s.change_direction(KeyValue::UpArrow);
    assert!(matches!(s.direction(), snake::game_state::Direction::UP));
}

#[test]
fn death_messages_name_the_cause() {
    assert_eq!(SnakeDiedError::OffScreen.message(), "Snake ran off screen!");
    assert_eq!(SnakeDiedError::HitSelf.message(), "Snake ran into itself!");
}
