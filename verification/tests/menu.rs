use arcade_games::game_menu::{Button, MainMenu, BUTTON_HEIGHT, BUTTON_WIDTH};
use arcade_games::geometry::Rect;

#[test]
fn button_has_the_standard_size() {
    let button = Button::new("Pong", (1000, 2200));
    assert_eq!(button.label, "Pong");
    assert_eq!(button.position, (1000, 2200));
    assert_eq!((button.width, button.height), (2000, 500));
    assert_eq!((BUTTON_WIDTH, BUTTON_HEIGHT), (2000, 500));
    assert_eq!(button.rect(), Rect { x: 1000, y: 2200, w: 2000, h: 500 });
}

#[test]
fn click_must_be_strictly_inside_the_button() {
    let button = Button::new("Pong", (1000, 2200));
    assert!(button.is_clicked(1001, 2201));
    assert!(button.is_clicked(2999, 2699));
    assert!(button.is_clicked(2000, 2450));
    assert!(!button.is_clicked(1000, 2450));
    assert!(!button.is_clicked(3000, 2450));
    assert!(!button.is_clicked(2000, 2200));
    assert!(!button.is_clicked(2000, 2700));
    assert!(!button.is_clicked(0, 0));
}

#[test]
fn menu_has_four_buttons() {
    let menu = MainMenu::new();
    let labels: Vec<&str> = menu.buttons.iter().map(|b| b.label.as_str()).collect();
    assert_eq!(labels, vec!["Flappy Bird", "Sneak", "Pong", "Memory"]);
    let corners: Vec<(i32, i32)> = menu.buttons.iter().map(|b| b.position).collect();
    assert_eq!(corners, vec![(1000, 1000), (1000, 1600), (1000, 2200), (1000, 2800)]);
    assert_eq!(menu.get_selected_game(), None);
}

#[test]
fn click_selects_the_button_it_hits() {
    let mut menu = MainMenu::new();
    assert!(menu.is_button_clicked(1500, 1700));
    assert_eq!(menu.get_selected_game(), Some("Sneak".to_string()));
    assert!(menu.is_button_clicked(2999, 3299));
    assert_eq!(menu.get_selected_game(), Some("Memory".to_string()));
    assert!(menu.is_button_clicked(1001, 1001));
    assert_eq!(menu.get_selected_game(), Some("Flappy Bird".to_string()));
}

#[test]
fn click_beside_the_buttons_changes_nothing() {
    let mut menu = MainMenu::new();
    assert!(!menu.is_button_clicked(500, 1200));
    assert_eq!(menu.get_selected_game(), None);
    assert!(menu.is_button_clicked(1500, 2300));
    // Between two buttons, and on a border.
    assert!(!menu.is_button_clicked(1500, 1550));
    assert!(!menu.is_button_clicked(1000, 1200));
    assert_eq!(menu.get_selected_game(), Some("Pong".to_string()));
}

#[test]
fn first_of_two_overlapping_buttons_wins() {
    let mut menu = MainMenu::new();
    menu.buttons = vec![Button::new("under", (0, 0)), Button::new("over", (100, 100))];
    assert!(menu.is_button_clicked(150, 150));
    assert_eq!(menu.get_selected_game(), Some("under".to_string()));
    assert!(menu.is_button_clicked(2050, 550));
    assert_eq!(menu.get_selected_game(), Some("over".to_string()));
}

#[test]
fn menu_update_changes_nothing() {
    let mut menu = MainMenu::new();
    menu.is_button_clicked(1500, 1700);
    menu.update();
    assert_eq!(menu, {
        let mut same = MainMenu::new();
        same.is_button_clicked(1500, 1700);
        same
    });
}
