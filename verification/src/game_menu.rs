//! A menu of labelled buttons that remembers which one was clicked last.

use crate::geometry::{Rect, RectView};
use vstd::prelude::*;
use vstd::string::StringExecFns;

verus! {

/// Width of every button: 200 pixels.
pub const BUTTON_WIDTH: i32 = 2000;

/// Height of every button: 50 pixels.
pub const BUTTON_HEIGHT: i32 = 500;

/// A rectangle with a label that reacts to clicks strictly inside it.
#[derive(Debug, PartialEq)]
pub struct Button {
    pub label: String,
    /// Top-left corner.
    pub position: (i32, i32),
    pub width: i32,
    pub height: i32,
}

/// A button as mathematical values.
pub struct ButtonView {
    pub label: Seq<char>,
    pub rect: RectView,
}

impl ButtonView {
    /// Whether a click at the point hits the button: the point must lie
    /// inside the rectangle and off its border.
    pub open spec fn is_clicked(self, x: int, y: int) -> bool {
        self.rect.covers_inside(x, y)
    }
}

impl View for Button {
    type V = ButtonView;

    open spec fn view(&self) -> ButtonView {
        ButtonView {
            label: self.label@,
            rect: RectView {
                x: self.position.0 as int,
                y: self.position.1 as int,
                w: self.width as int,
                h: self.height as int,
            },
        }
    }
}

impl Button {
    /// A button of the standard size with its top-left corner at `position`.
    pub fn new(label: &str, position: (i32, i32)) -> (button: Button)
        ensures
            button@.label == label@,
            button@.rect == (RectView {
                x: position.0 as int,
                y: position.1 as int,
                w: BUTTON_WIDTH as int,
                h: BUTTON_HEIGHT as int,
            }),
    {
        Button {
            label: String::from_str(label),
            position,
            width: BUTTON_WIDTH,
            height: BUTTON_HEIGHT,
        }
    }

    /// The rectangle that the button occupies.
    pub fn rect(&self) -> (r: Rect)
        ensures
            r@ == self@.rect,
    {
        Rect { x: self.position.0, y: self.position.1, w: self.width, h: self.height }
    }

    /// Tells whether a click at `(x, y)` hits the button.
    pub fn is_clicked(&self, x: i32, y: i32) -> (hit: bool)
        ensures
            hit == self@.is_clicked(x as int, y as int),
    {
        self.rect().contains_strictly(x, y)
    }
}

/// The menu: its buttons from top to bottom, and the label of the button
/// that was clicked last.
#[derive(Debug, PartialEq)]
pub struct MainMenu {
    pub buttons: Vec<Button>,
    pub selected_game: Option<String>,
}

/// A menu as mathematical values.
pub struct MainMenuView {
    pub buttons: Seq<ButtonView>,
    pub selected_game: Option<Seq<char>>,
}

impl MainMenuView {
    /// The index of the first button at index `from` or later that a click
    /// at the point hits, or the number of buttons if it hits none.
    pub open spec fn first_clicked(self, x: int, y: int, from: int) -> int
        decreases self.buttons.len() - from,
    {
        if from < 0 || from >= self.buttons.len() {
            self.buttons.len() as int
        } else if self.buttons[from].is_clicked(x, y) {
            from
        } else {
            self.first_clicked(x, y, from + 1)
        }
    }

    /// Whether a click at the point hits a button.
    pub open spec fn hits_button(self, x: int, y: int) -> bool {
        self.first_clicked(x, y, 0) < self.buttons.len()
    }

    /// The menu after a click at the point: the first button that the click
    /// hits becomes the selected one; a click that hits none changes
    /// nothing.
    pub open spec fn clicked(self, x: int, y: int) -> MainMenuView {
        if self.hits_button(x, y) {
            MainMenuView {
                selected_game: Some(self.buttons[self.first_clicked(x, y, 0)].label),
                ..self
            }
        } else {
            self
        }
    }
}

/// The views of a list of buttons, in order.
pub open spec fn button_views(buttons: Seq<Button>) -> Seq<ButtonView> {
    buttons.map_values(|b: Button| b@)
}

/// The view of an optional string.
pub open spec fn optional_text(text: Option<String>) -> Option<Seq<char>> {
    match text {
        Some(s) => Some(s@),
        None => None,
    }
}

impl View for MainMenu {
    type V = MainMenuView;

    open spec fn view(&self) -> MainMenuView {
        MainMenuView {
            buttons: button_views(self.buttons@),
            selected_game: optional_text(self.selected_game),
        }
    }
}

impl MainMenu {
    /// The menu with its four buttons, none selected.
    pub fn new() -> (menu: MainMenu)
        ensures
            menu@.selected_game.is_none(),
            menu@.buttons.len() == 4,
            menu@.buttons[0].label == "Flappy Bird"@,
            menu@.buttons[1].label == "Sneak"@,
            menu@.buttons[2].label == "Pong"@,
            menu@.buttons[3].label == "Memory"@,
            forall|i: int|
                0 <= i < 4 ==> (#[trigger] menu@.buttons[i]).rect == (RectView {
                    x: 1000,
                    y: 1000 + 600 * i,
                    w: BUTTON_WIDTH as int,
                    h: BUTTON_HEIGHT as int,
                }),
    {
        let mut buttons: Vec<Button> = Vec::new();
        buttons.push(Button::new("Flappy Bird", (1000, 1000)));
        buttons.push(Button::new("Sneak", (1000, 1600)));
        buttons.push(Button::new("Pong", (1000, 2200)));
        buttons.push(Button::new("Memory", (1000, 2800)));
        MainMenu { buttons, selected_game: None }
    }

    /// Handles a click at `(x, y)`: the first button that it hits becomes the
    /// selected one. Tells whether a button was hit.
    pub fn is_button_clicked(&mut self, x: i32, y: i32) -> (hit: bool)
        ensures
            hit == old(self)@.hits_button(x as int, y as int),
            final(self)@ == old(self)@.clicked(x as int, y as int),
    {
        let mut i: usize = 0;
        while i < self.buttons.len()
            invariant
                i <= self.buttons.len(),
                *self == *old(self),
                self@.first_clicked(x as int, y as int, i as int) == self@.first_clicked(
                    x as int,
                    y as int,
                    0,
                ),
            decreases self.buttons.len() - i,
        {
            assert(self@.buttons[i as int] == self.buttons@[i as int]@);
            if self.buttons[i].is_clicked(x, y) {
                let label = self.buttons[i].label.clone();
                self.selected_game = Some(label);
                return true;
            }
            i += 1;
        }
        false
    }

    /// The label of the button that was clicked last, if any was.
    pub fn get_selected_game(&self) -> (selected: Option<String>)
        ensures
            optional_text(selected) == self@.selected_game,
    {
        match &self.selected_game {
            Some(label) => Some(label.clone()),
            None => None,
        }
    }

    /// Advances the menu by one frame: nothing in it moves.
    pub fn update(&mut self)
        ensures
            *final(self) == *old(self),
    {
    }
}

} // verus!
