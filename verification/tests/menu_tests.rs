use blockfall::input::MenuInputState;
use blockfall::menu::{Menu, MenuStatus};
use blockfall::scenes::{Scene, SceneAction, SceneManager};

#[test]
fn menu_accept_starts_the_selected_gamemode() {
    let mut menu = Menu::new(vec!["marathon".to_string(), "sprint".to_string()]);
    let mut input = MenuInputState::new();
    input.accept = true;
    match menu.update(&mut input, 0) {
        MenuStatus::Game(name) => assert_eq!(name, "marathon"),
        _ => panic!("expected the selected game mode"),
    }
    assert!(!input.accept);
}

#[test]
fn menu_cancel_exits() {
    let mut menu = Menu::new(vec!["marathon".to_string()]);
    let mut input = MenuInputState::new();
    input.cancel = true;
    assert!(matches!(menu.update(&mut input, 0), MenuStatus::Exit));
    assert!(!input.cancel);
}

#[test]
fn menu_down_moves_and_wraps() {
    let mut menu = Menu::new(vec!["a".to_string(), "b".to_string()]);
    let mut input = MenuInputState::new();
    input.down = true;
    menu.update(&mut input, 0);
    assert_eq!(menu.selected_index, 1);
    menu.update(&mut input, 0);
    // A held direction waits for the delayed-auto-shift threshold.
    assert_eq!(menu.selected_index, 1);
    input.down = false;
    input.up = true;
    menu.update(&mut input, 0);
    assert_eq!(menu.selected_index, 0);
    menu.update(&mut input, 0);
    assert_eq!(menu.selected_index, 0);
}

#[test]
fn menu_last_tile_is_settings() {
    let mut menu = Menu::new(vec!["a".to_string()]);
    let mut input = MenuInputState::new();
    input.down = true;
    menu.update(&mut input, 0);
    input.down = false;
    input.accept = true;
    assert!(matches!(menu.update(&mut input, 0), MenuStatus::Settings));
}

#[test]
fn scene_stack_pushes_and_pops() {
    let mut manager = SceneManager::new(Scene::Settings);
    assert_eq!(manager.stack.len(), 1);
    manager.handle_scene_action(SceneAction::Continue);
    assert_eq!(manager.stack.len(), 1);
    manager.handle_scene_action(SceneAction::Push(Scene::Settings));
    assert_eq!(manager.stack.len(), 2);
    manager.handle_scene_action(SceneAction::Pop);
    assert_eq!(manager.stack.len(), 1);
    manager.handle_scene_action(SceneAction::Pop);
    assert_eq!(manager.stack.len(), 0);
    manager.handle_scene_action(SceneAction::Pop);
    assert_eq!(manager.stack.len(), 0);
}

#[test]
fn piece_list_holds_the_builtin_shapes() {
    let list = blockfall::pieces::PieceList::new();
    assert_eq!(list.I_type[0], vec![(0, 0), (0, 1), (0, 2), (0, 3)]);
    assert_eq!(list.T_type[0].len(), 4);
}
