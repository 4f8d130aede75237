use insight::game_data::GameData;
use insight::graphics::{Graphics, LayerSwitches, TileVertex};
use insight::insight::{Insight, Key};
use insight::palette::Shape;
use insight::projection::{Axis, cell_position, compute_projection};

fn ratio(n: i128, d: u128) -> f64 {
    n as f64 / d as f64
}

fn five_turns() -> Insight {
    let text = "1 1\nA 1 0 0 1\nturn\nA\nturn\nA\nturn\nA\nturn\nA\nturn\nA\nend\n";
    let g = GameData::load(text.as_bytes()).unwrap();
    assert_eq!(g.num_turns(), 5);
    Insight::new(g)
}

#[test]
fn projection_letterboxing() {
    let p = compute_projection(10, 20, 1920, 1080).unwrap();
    assert!((ratio(p.x.scale, p.x.denominator) - 0.1).abs() < 1e-9);
    assert!((ratio(p.x.offset, p.x.denominator) + 1.0).abs() < 1e-9);
    assert!((ratio(p.y.scale, p.y.denominator) - 0.17778).abs() < 1e-4);
    assert!((ratio(p.y.offset, p.y.denominator) + 0.8889).abs() < 1e-4);
    assert_eq!(p.x, Axis { scale: 2, offset: -20, denominator: 20 });
    assert_eq!(p.y, Axis { scale: 3840, offset: -19200, denominator: 21600 });
}

#[test]
fn projection_fit_to_height() {
    let p = compute_projection(10, 10, 1920, 1080).unwrap();
    assert!((ratio(p.x.scale, p.x.denominator) - 2.0 / (10.0 * 1920.0 / 1080.0)).abs() < 1e-9);
    assert!((ratio(p.x.offset, p.x.denominator) + 1080.0 / 1920.0).abs() < 1e-9);
    assert_eq!(p.y, Axis { scale: 2, offset: -10, denominator: 10 });
}

#[test]
fn projection_degenerate() {
    assert!(compute_projection(0, 5, 100, 100).is_none());
    assert!(compute_projection(5, 0, 0, 0).is_none());
    let empty_view = compute_projection(4, 8, 0, 0).unwrap();
    assert_eq!(empty_view.x, Axis { scale: 2, offset: -8, denominator: 8 });
    assert_eq!(empty_view.y.scale, 0);
    let narrow_board = compute_projection(4, 0, 100, 50).unwrap();
    assert_eq!(narrow_board.x.offset, 0);
}

#[test]
fn rows_flip_vertically() {
    assert_eq!(cell_position(10, 0, 3), (3, 9));
    assert_eq!(cell_position(10, 9, 0), (0, 0));
}

#[test]
fn playback_clamping() {
    let mut s = five_turns();
    for _ in 0..10 {
        s.step_forward();
    }
    assert_eq!(s.turn(), 4);
    s.step_forward();
    assert_eq!(s.turn(), 4);
    for _ in 0..10 {
        s.step_back();
    }
    assert_eq!(s.turn(), 0);
    s.step_back();
    assert_eq!(s.turn(), 0);
    for _ in 0..5 {
        s.adjust_speed(i32::MAX);
        assert_eq!(s.play_speed(), 250);
    }
    for _ in 0..5 {
        s.adjust_speed(i32::MIN);
        assert_eq!(s.play_speed(), 1);
    }
    for _ in 0..300 {
        s.handle_key(Key::Up);
    }
    assert_eq!(s.play_speed(), 250);
    for _ in 0..300 {
        s.handle_key(Key::Down);
    }
    assert_eq!(s.play_speed(), 1);
}

#[test]
fn stepping_pauses_autoplay() {
    let mut s = five_turns();
    assert!(s.is_playing());
    s.handle_key(Key::Right);
    assert!(!s.is_playing());
    assert_eq!(s.turn(), 1);
    s.handle_key(Key::Space);
    assert!(s.is_playing());
    assert_eq!(s.turn(), 1);
    s.handle_key(Key::Left);
    assert!(!s.is_playing());
    assert_eq!(s.turn(), 0);
}

#[test]
fn autoplay_waits_for_the_interval() {
    let mut s = five_turns();
    assert!(s.take_redraw());
    assert!(!s.take_redraw());
    assert!(!s.advance(499_999_999));
    assert_eq!(s.turn(), 0);
    assert!(s.advance(500_000_000));
    assert_eq!(s.turn(), 1);
    assert!(s.take_redraw());
    s.handle_key(Key::Up);
    assert_eq!(s.play_speed(), 6);
    assert!(!s.advance(416_666_666));
    assert!(s.advance(416_666_667));
    s.advance(u64::MAX);
    s.advance(u64::MAX);
    assert_eq!(s.turn(), 4);
    assert!(!s.advance(u64::MAX));
    assert_eq!(s.turn(), 4);
    s.handle_key(Key::Space);
    s.step_back();
    assert!(!s.advance(u64::MAX));
}

#[test]
fn window_events() {
    let mut s = five_turns();
    s.take_redraw();
    s.resize(800, 600);
    assert!(s.take_redraw());
    s.focus();
    assert!(s.take_redraw());
    assert!(!s.is_closing());
    s.handle_key(Key::Other);
    assert!(!s.take_redraw());
    s.handle_key(Key::Q);
    assert!(s.is_closing());
    assert_eq!(s.projection().unwrap().y, Axis { scale: 2, offset: -1, denominator: 1 });
}

#[test]
fn layer_toggle_idempotence() {
    let mut switches = LayerSwitches::new();
    for layer in 0..10 {
        switches.toggle(layer);
        assert!(!switches.is_visible(layer));
        for other in 0..10 {
            if other != layer {
                assert!(switches.is_visible(other));
            }
        }
        switches.toggle(layer);
        for other in 0..10 {
            assert!(switches.is_visible(other));
        }
    }
    let mut g = Graphics::new(3, 3);
    g.toggle_layer(4);
    g.toggle_layer(4);
    for layer in 0..10 {
        assert!(g.is_layer_visible(layer));
    }
}

#[test]
fn digit_keys_switch_layers() {
    let text = "2 1\nA 1 0 0 1 0\nB 1 1 1 1 9\nturn\nAB\nA\nend\n";
    let g = GameData::load(text.as_bytes()).unwrap();
    let mut s = Insight::new(g);
    let all = s.visible_tiles();
    assert_eq!(all.len(), 3);
    assert_eq!(
        (all[0].x, all[0].y, all[0].layer, all[0].shape),
        (0, 1, 0, Shape::Circle)
    );
    s.take_redraw();
    s.handle_key(Key::Digit(0));
    assert!(s.take_redraw());
    let shown: Vec<TileVertex> = s.visible_tiles();
    assert_eq!(shown.len(), 2);
    assert!(shown.iter().all(|v| v.layer == 0));
    s.handle_key(Key::Digit(1));
    assert_eq!(s.visible_tiles().len(), 0);
    s.handle_key(Key::Digit(0));
    s.handle_key(Key::Digit(1));
    assert_eq!(s.visible_tiles().len(), 3);
    s.handle_key(Key::Digit(12));
    assert_eq!(s.visible_tiles().len(), 3);
}
