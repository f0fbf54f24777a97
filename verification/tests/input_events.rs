use smart_road::input::{approach_for_arrow, InputEvent, InputState, Key};
use smart_road::intersection::Cardinal;

#[test]
fn arrow_up_spawns_south_approach() {
    assert_eq!(approach_for_arrow(Key::Up), Some(Cardinal::South));
}

#[test]
fn arrow_down_spawns_north_approach() {
    assert_eq!(approach_for_arrow(Key::Down), Some(Cardinal::North));
}

#[test]
fn arrow_right_spawns_west_approach() {
    assert_eq!(approach_for_arrow(Key::Right), Some(Cardinal::West));
}

#[test]
fn arrow_left_spawns_east_approach() {
    assert_eq!(approach_for_arrow(Key::Left), Some(Cardinal::East));
}

#[test]
fn key_down_emits_random_stream_on_r() {
    let mut input = InputState::new();
    input.on_key_down(Some(Key::R));
    let events: Vec<_> = input.drain_events();
    assert_eq!(events, vec![InputEvent::RandomStream(true)]);
    assert!(input.random_stream_active());
}

#[test]
fn key_up_clears_random_stream() {
    let mut input = InputState::new();
    input.on_key_down(Some(Key::R));
    let _: Vec<_> = input.drain_events();
    input.on_key_up(Some(Key::R));
    let events: Vec<_> = input.drain_events();
    assert_eq!(events, vec![InputEvent::RandomStream(false)]);
    assert!(!input.random_stream_active());
}

#[test]
fn key_down_emits_spawn_event() {
    let mut input = InputState::new();
    input.on_key_down(Some(Key::Up));
    let events: Vec<_> = input.drain_events();
    assert_eq!(events, vec![InputEvent::SpawnCardinal(Cardinal::South)]);
}

#[test]
fn key_down_accumulates_spawn_events_in_one_poll() {
    let mut input = InputState::new();
    input.on_key_down(Some(Key::Up));
    input.on_key_down(Some(Key::Right));
    let events: Vec<_> = input.drain_events();
    assert_eq!(
        events,
        vec![
            InputEvent::SpawnCardinal(Cardinal::South),
            InputEvent::SpawnCardinal(Cardinal::West),
        ]
    );
}

#[test]
fn key_down_ignores_unmapped_keys() {
    let mut input = InputState::new();
    input.on_key_down(Some(Key::Other));
    assert_eq!(input.drain_events().len(), 0);
}

#[test]
fn escape_emits_exit_and_draining_empties_the_queue() {
    let mut input = InputState::new();
    input.on_key_down(None);
    input.on_key_down(Some(Key::Escape));
    input.on_key_up(Some(Key::Up));
    assert_eq!(input.drain_events(), vec![InputEvent::Exit]);
    assert!(input.drain_events().is_empty());
    assert!(!input.random_stream_active());
}

#[test]
fn holding_r_keeps_stream_active_until_release() {
    let mut input = InputState::new();
    input.on_key_down(Some(Key::R));
    input.on_key_down(Some(Key::Left));
    assert!(input.random_stream_active());
    input.on_key_up(Some(Key::Left));
    assert!(input.random_stream_active());
    input.on_key_up(Some(Key::R));
    assert_eq!(
        input.drain_events(),
        vec![
            InputEvent::RandomStream(true),
            InputEvent::SpawnCardinal(Cardinal::East),
            InputEvent::RandomStream(false),
        ]
    );
}
