use vstd::prelude::*;

use crate::render::{Direction, Render};
use crate::screen::game_ok;

verus! {

/// One parsed key press, as the session understands it: quit, a cursor
/// move (one step, to the middle, or to the edge), a press, or a key the
/// session ignores.
#[derive(Clone, Copy, PartialEq, Eq, Structural, Debug)]
pub enum KeyInput {
    Quit,
    Move(Direction),
    MoveHalf(Direction),
    MoveFar(Direction),
    Press,
    Other,
}

/// A terminal session: the renderer it drives. Reading keys and switching
/// the terminal's modes are the caller's concern; the session only decides
/// what each parsed key does.
pub struct Terminal {
    pub render: Render,
}

impl Terminal {
    /// Wraps a renderer into a session.
    pub fn new(renderer: Render) -> (t: Terminal)
        ensures
            t.render == renderer,
    {
        Terminal { render: renderer }
    }

    /// Dispatches one parsed key press: quit ends the session, arrows move
    /// the cursor, and a press drives the current screen, handing back the
    /// actions of the buttons it fired for the caller to carry out.
    pub fn process_key(&mut self, key: KeyInput) -> (r: (bool, Vec<&'static str>))
        requires
            old(self).render.wf(),
            old(self).render.width >= 1,
            old(self).render.height >= 1,
            key == KeyInput::Press ==> old(self).render.current_screen < old(
                self,
            ).render.screens@.len() && old(self).render.screens@[old(
                self,
            ).render.current_screen as int].wf() && game_ok(
                old(self).render.screens@[old(self).render.current_screen as int].game,
            ) && old(self).render.cursor_controller.cursor_y < old(self).render.screens@[old(
                self,
            ).render.current_screen as int].height,
        ensures
            final(self).render.wf(),
            final(self).render.width == old(self).render.width,
            final(self).render.height == old(self).render.height,
            r.0 == (key != KeyInput::Quit),
            (key == KeyInput::Quit || key == KeyInput::Other) ==> final(self).render == old(
                self,
            ).render && r.1@ == Seq::<&'static str>::empty(),
            (key matches KeyInput::Move(_) || key matches KeyInput::MoveHalf(_) || key
                matches KeyInput::MoveFar(_)) ==> final(self).render.screens == old(
                self,
            ).render.screens && final(self).render.current_screen == old(
                self,
            ).render.current_screen && r.1@ == Seq::<&'static str>::empty(),
            key == KeyInput::Press ==> final(self).render.cursor_controller == old(
                self,
            ).render.cursor_controller,
    {
        match key {
            KeyInput::Quit => (false, Vec::new()),
            KeyInput::Move(direction) => {
                self.render.move_cursor(direction);
                (true, Vec::new())
            },
            KeyInput::MoveHalf(direction) => {
                self.render.move_cursor_half(direction);
                (true, Vec::new())
            },
            KeyInput::MoveFar(direction) => {
                self.render.move_cursor_far(direction);
                (true, Vec::new())
            },
            KeyInput::Press => {
                let actions = self.render.press_button();
                (true, actions)
            },
            KeyInput::Other => (true, Vec::new()),
        }
    }
}

} // verus!
