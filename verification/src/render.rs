use vstd::prelude::*;

use crate::screen::{game_ok, pressed, ButtonText, Screen};

verus! {

/// Why the renderer could not be set up or drawn to.
#[derive(Debug)]
pub enum RenderError {
    AddTextError(&'static str),
    TerminalSizeError(&'static str),
}

/// A direction a cursor can move in.
#[derive(Clone, Copy, PartialEq, Eq, Structural, Debug)]
pub enum Direction {
    Up,
    Down,
    Left,
    Right,
}

/// A cursor inside a width-by-height area.
pub struct CursorController {
    pub cursor_x: usize,
    pub cursor_y: usize,
    pub width: usize,
    pub height: usize,
}

impl CursorController {
    /// Makes a cursor at the top-left corner of the given area.
    pub fn new(width: usize, height: usize) -> (cc: CursorController)
        ensures
            cc.cursor_x == 0,
            cc.cursor_y == 0,
            cc.width == width,
            cc.height == height,
    {
        CursorController { cursor_x: 0, cursor_y: 0, width, height }
    }

    /// Moves the cursor one step in the given direction, stopping at the
    /// area's edges.
    pub fn move_cursor(&mut self, direction: Direction)
        requires
            old(self).width >= 1,
            old(self).height >= 1,
        ensures
            final(self).width == old(self).width,
            final(self).height == old(self).height,
            final(self).cursor_x == (match direction {
                Direction::Left => (if old(self).cursor_x > 0 {
                    old(self).cursor_x - 1
                } else {
                    old(self).cursor_x as int
                }),
                Direction::Right => (if old(self).cursor_x < old(self).width - 1 {
                    old(self).cursor_x + 1
                } else {
                    old(self).cursor_x as int
                }),
                _ => old(self).cursor_x as int,
            }),
            final(self).cursor_y == (match direction {
                Direction::Up => (if old(self).cursor_y > 0 {
                    old(self).cursor_y - 1
                } else {
                    old(self).cursor_y as int
                }),
                Direction::Down => (if old(self).cursor_y < old(self).height - 1 {
                    old(self).cursor_y + 1
                } else {
                    old(self).cursor_y as int
                }),
                _ => old(self).cursor_y as int,
            }),
    {
        match direction {
            Direction::Up => {
                if self.cursor_y > 0 {
                    self.cursor_y -= 1;
                }
            },
            Direction::Down => {
                if self.cursor_y < self.height - 1 {
                    self.cursor_y += 1;
                }
            },
            Direction::Left => {
                if self.cursor_x > 0 {
                    self.cursor_x -= 1;
                }
            },
            Direction::Right => {
                if self.cursor_x < self.width - 1 {
                    self.cursor_x += 1;
                }
            },
        }
    }

    /// Jumps the cursor to the middle of its row or column.
    pub fn move_cursor_half(&mut self, direction: Direction)
        ensures
            final(self).width == old(self).width,
            final(self).height == old(self).height,
            final(self).cursor_x == (match direction {
                Direction::Left | Direction::Right => (old(self).width / 2) as int,
                _ => old(self).cursor_x as int,
            }),
            final(self).cursor_y == (match direction {
                Direction::Up | Direction::Down => (old(self).height / 2) as int,
                _ => old(self).cursor_y as int,
            }),
    {
        match direction {
            Direction::Up => {
                self.cursor_y = self.height / 2;
            },
            Direction::Down => {
                self.cursor_y = self.height / 2;
            },
            Direction::Left => {
                self.cursor_x = self.width / 2;
            },
            Direction::Right => {
                self.cursor_x = self.width / 2;
            },
        }
    }

    /// Jumps the cursor to the edge of its row or column.
    pub fn move_cursor_far(&mut self, direction: Direction)
        requires
            old(self).width >= 1,
            old(self).height >= 1,
        ensures
            final(self).width == old(self).width,
            final(self).height == old(self).height,
            final(self).cursor_x == (match direction {
                Direction::Left => 0int,
                Direction::Right => old(self).width - 1,
                _ => old(self).cursor_x as int,
            }),
            final(self).cursor_y == (match direction {
                Direction::Up => 0int,
                Direction::Down => old(self).height - 1,
                _ => old(self).cursor_y as int,
            }),
    {
        match direction {
            Direction::Up => {
                self.cursor_y = 0;
            },
            Direction::Down => {
                self.cursor_y = self.height - 1;
            },
            Direction::Left => {
                self.cursor_x = 0;
            },
            Direction::Right => {
                self.cursor_x = self.width - 1;
            },
        }
    }
}

/// Relies on std's `str` equality: two string slices are equal exactly
/// when they hold the same characters.
#[verifier::external_body]
fn str_eq(a: &str, b: &str) -> (r: bool)
    ensures
        r == (a@ == b@),
{
    a == b
}

/// A pressed button's target lies under the cursor's column.
pub open spec fn button_hit(b: ButtonText, cx: int) -> bool {
    b.position_x <= cx < b.position_x + b.length
}

/// What scanning a row of buttons at cursor column cx does, starting from
/// screen index `cur`: each button under the cursor fires in order; the
/// navigation actions move between screens (stopping at the ends of the
/// stack) and every other action's name is handed back to the caller.
pub open spec fn scan_buttons(bs: Seq<ButtonText>, cx: int, cur: int) -> (int, Seq<&'static str>)
    decreases bs.len(),
{
    if bs.len() == 0 {
        (cur, Seq::empty())
    } else {
        let b = bs[0];
        let step: (int, Seq<&'static str>) = if button_hit(b, cx) {
            if b.on_click@ == "next_screen"@ {
                ((if cur < usize::MAX { cur + 1 } else { cur }), Seq::empty())
            } else if b.on_click@ == "last_screen"@ {
                ((if cur >= 1 { cur - 1 } else { cur }), Seq::empty())
            } else if b.on_click@ == "reset_game"@ {
                (0int, Seq::empty())
            } else {
                (cur, seq![b.on_click])
            }
        } else {
            (cur, Seq::empty())
        };
        let rest = scan_buttons(bs.drop_first(), cx, step.0);
        (rest.0, step.1 + rest.1)
    }
}

/// The screen stack and the cursor that drives it.
pub struct Render {
    pub screens: Vec<Screen>,
    pub current_screen: usize,
    pub width: usize,
    pub height: usize,
    pub cursor_controller: CursorController,
}

impl Render {
    /// The cursor's area matches the renderer's size.
    pub open spec fn wf(self) -> bool {
        &&& self.cursor_controller.width == self.width
        &&& self.cursor_controller.height == self.height
    }

    /// Makes a renderer of the given size showing the given screen, with
    /// the cursor at the top-left corner; a terminal under ten cells in
    /// both directions is refused.
    pub fn new(screen: Screen, width: usize, height: usize) -> (result: Result<Render, RenderError>)
        ensures
            ({
                if width < 10 && height < 10 {
                    result matches Err(RenderError::TerminalSizeError(m)) && m@
                        == "Terminal size is too small!"@
                } else {
                    result matches Ok(r) && r.wf() && r.width == width && r.height == height
                        && r.current_screen == 1 && r.screens@.len() == 1 && r.screens@[0]
                        == screen && r.cursor_controller.cursor_x == 0
                        && r.cursor_controller.cursor_y == 0
                }
            }),
    {
        if width < 10 && height < 10 {
            return Err(RenderError::TerminalSizeError("Terminal size is too small!"));
        }
        let mut screens: Vec<Screen> = Vec::new();
        screens.push(screen);
        Ok(
            Render {
                screens,
                current_screen: 1,
                width,
                height,
                cursor_controller: CursorController::new(width, height),
            },
        )
    }

    /// Moves the cursor one step, stopping at the edges.
    pub fn move_cursor(&mut self, direction: Direction)
        requires
            old(self).wf(),
            old(self).width >= 1,
            old(self).height >= 1,
        ensures
            final(self).wf(),
            final(self).screens == old(self).screens,
            final(self).current_screen == old(self).current_screen,
            final(self).width == old(self).width,
            final(self).height == old(self).height,
            final(self).cursor_controller.cursor_x == (match direction {
                Direction::Left => (if old(self).cursor_controller.cursor_x > 0 {
                    old(self).cursor_controller.cursor_x - 1
                } else {
                    old(self).cursor_controller.cursor_x as int
                }),
                Direction::Right => (if old(self).cursor_controller.cursor_x < old(self).width
                    - 1 {
                    old(self).cursor_controller.cursor_x + 1
                } else {
                    old(self).cursor_controller.cursor_x as int
                }),
                _ => old(self).cursor_controller.cursor_x as int,
            }),
            final(self).cursor_controller.cursor_y == (match direction {
                Direction::Up => (if old(self).cursor_controller.cursor_y > 0 {
                    old(self).cursor_controller.cursor_y - 1
                } else {
                    old(self).cursor_controller.cursor_y as int
                }),
                Direction::Down => (if old(self).cursor_controller.cursor_y < old(self).height
                    - 1 {
                    old(self).cursor_controller.cursor_y + 1
                } else {
                    old(self).cursor_controller.cursor_y as int
                }),
                _ => old(self).cursor_controller.cursor_y as int,
            }),
    {
        self.cursor_controller.move_cursor(direction);
    }

    /// Jumps the cursor to the middle of its row or column.
    pub fn move_cursor_half(&mut self, direction: Direction)
        requires
            old(self).wf(),
        ensures
            final(self).wf(),
            final(self).screens == old(self).screens,
            final(self).current_screen == old(self).current_screen,
            final(self).width == old(self).width,
            final(self).height == old(self).height,
            final(self).cursor_controller.cursor_x == (match direction {
                Direction::Left | Direction::Right => (old(self).width / 2) as int,
                _ => old(self).cursor_controller.cursor_x as int,
            }),
            final(self).cursor_controller.cursor_y == (match direction {
                Direction::Up | Direction::Down => (old(self).height / 2) as int,
                _ => old(self).cursor_controller.cursor_y as int,
            }),
    {
        self.cursor_controller.move_cursor_half(direction);
    }

    /// Jumps the cursor to the edge of its row or column.
    pub fn move_cursor_far(&mut self, direction: Direction)
        requires
            old(self).wf(),
            old(self).width >= 1,
            old(self).height >= 1,
        ensures
            final(self).wf(),
            final(self).screens == old(self).screens,
            final(self).current_screen == old(self).current_screen,
            final(self).width == old(self).width,
            final(self).height == old(self).height,
            final(self).cursor_controller.cursor_x == (match direction {
                Direction::Left => 0int,
                Direction::Right => old(self).width - 1,
                _ => old(self).cursor_controller.cursor_x as int,
            }),
            final(self).cursor_controller.cursor_y == (match direction {
                Direction::Up => 0int,
                Direction::Down => old(self).height - 1,
                _ => old(self).cursor_controller.cursor_y as int,
            }),
    {
        self.cursor_controller.move_cursor_far(direction);
    }

    /// Presses at the cursor: first the game shown on the current screen
    /// is driven one step (a winning press advances to the next screen);
    /// when the press falls through, the buttons on the cursor's row are
    /// scanned, navigation buttons moving between screens and every other
    /// pressed button's action name being handed back for the caller to
    /// dispatch.
    pub fn press_button(&mut self) -> (actions: Vec<&'static str>)
        requires
            old(self).wf(),
            old(self).current_screen < old(self).screens@.len(),
            old(self).screens@[old(self).current_screen as int].wf(),
            game_ok(old(self).screens@[old(self).current_screen as int].game),
            old(self).cursor_controller.cursor_y < old(self).screens@[old(
                self,
            ).current_screen as int].height,
        ensures
            final(self).wf(),
            final(self).width == old(self).width,
            final(self).height == old(self).height,
            final(self).cursor_controller == old(self).cursor_controller,
            final(self).screens@.len() == old(self).screens@.len(),
            forall|k: int|
                0 <= k < old(self).screens@.len() && k != old(self).current_screen
                    ==> #[trigger] final(self).screens@[k] == old(self).screens@[k],
            final(self).screens@[old(self).current_screen as int].wf(),
            game_ok(final(self).screens@[old(self).current_screen as int].game),
            ({
                let cur = old(self).current_screen as int;
                let cx = old(self).cursor_controller.cursor_x;
                let cy = old(self).cursor_controller.cursor_y;
                let pre = old(self).screens@[cur];
                let post = final(self).screens@[cur];
                exists|pb: (bool, bool)|
                    {
                        &&& #[trigger] pressed(pre, post, cx, cy, pb)
                        &&& if pb.1 {
                            &&& actions@ == Seq::<&'static str>::empty()
                            &&& final(self).current_screen == (if old(self).current_screen
                                < usize::MAX {
                                old(self).current_screen + 1
                            } else {
                                old(self).current_screen as int
                            })
                        } else if pb.0 {
                            let scanned = scan_buttons(
                                pre.screen_rows.buttons@[cy as int]@,
                                cx as int,
                                old(self).current_screen as int,
                            );
                            &&& final(self).current_screen == scanned.0
                            &&& actions@ == scanned.1
                        } else {
                            &&& actions@ == Seq::<&'static str>::empty()
                            &&& final(self).current_screen == old(self).current_screen
                        }
                    }
            }),
    {
        let cursor_x = self.cursor_controller.cursor_x;
        let cursor_y = self.cursor_controller.cursor_y;
        let cur = self.current_screen;
        let ghost pre = self.screens@[cur as int];
        let pb = self.screens[cur].press_board(cursor_x, cursor_y);
        let mut actions: Vec<&'static str> = Vec::new();
        if pb.1 {
            if self.current_screen < usize::MAX {
                self.current_screen += 1;
            }
            proof {
                assert(pressed(
                    pre,
                    self.screens@[cur as int],
                    cursor_x,
                    cursor_y,
                    pb,
                ));
            }
            return actions;
        }
        if !pb.0 {
            proof {
                assert(pressed(pre, self.screens@[cur as int], cursor_x, cursor_y, pb));
            }
            return actions;
        }
        let ghost bs = pre.screen_rows.buttons@[cursor_y as int]@;
        let ghost cur0 = self.current_screen as int;
        let ghost after_press = self.screens@;
        let mut i: usize = 0;
        proof {
            assert(bs.skip(0) =~= bs);
            assert(Seq::<&'static str>::empty() + scan_buttons(bs, cursor_x as int, cur0).1
                =~= scan_buttons(bs, cursor_x as int, cur0).1);
        }
        let n = self.screens[cur].screen_rows.buttons[cursor_y].len();
        while i < n
            invariant
                i <= n,
                self.wf(),
                self.width == old(self).width,
                self.height == old(self).height,
                self.cursor_controller == old(self).cursor_controller,
                self.screens@ == after_press,
                pressed(pre, after_press[cur as int], cursor_x, cursor_y, pb),
                pb.0 && !pb.1,
                after_press.len() == old(self).screens@.len(),
                forall|k: int|
                    0 <= k < after_press.len() && k != cur ==> #[trigger] after_press[k] == old(
                        self,
                    ).screens@[k],
                after_press[cur as int].wf(),
                game_ok(after_press[cur as int].game),
                cur == old(self).current_screen,
                cur < self.screens@.len(),
                cursor_y < self.screens@[cur as int].screen_rows.buttons@.len(),
                bs == self.screens@[cur as int].screen_rows.buttons@[cursor_y as int]@,
                n == bs.len(),
                scan_buttons(bs, cursor_x as int, cur0) == (
                    scan_buttons(bs.skip(i as int), cursor_x as int, self.current_screen as int).0,
                    actions@ + scan_buttons(
                        bs.skip(i as int),
                        cursor_x as int,
                        self.current_screen as int,
                    ).1,
                ),
            decreases n - i,
        {
            proof {
                assert(bs.skip(i as int)[0] == bs[i as int]);
                assert(bs.skip(i as int).drop_first() =~= bs.skip(i as int + 1));
            }
            let button_x = self.screens[cur].screen_rows.buttons[cursor_y][i].position_x;
            let button_len = self.screens[cur].screen_rows.buttons[cursor_y][i].length;
            let label = self.screens[cur].screen_rows.buttons[cursor_y][i].on_click;
            if button_x <= cursor_x && cursor_x - button_x < button_len {
                if str_eq(label, "next_screen") {
                    if self.current_screen < usize::MAX {
                        self.current_screen += 1;
                    }
                } else if str_eq(label, "last_screen") {
                    if self.current_screen >= 1 {
                        self.current_screen -= 1;
                    }
                } else if str_eq(label, "reset_game") {
                    self.current_screen = 0;
                } else {
                    actions.push(label);
                }
            }
            proof {
                assert(scan_buttons(bs, cursor_x as int, cur0) == (
                    scan_buttons(
                        bs.skip(i as int + 1),
                        cursor_x as int,
                        self.current_screen as int,
                    ).0,
                    actions@ + scan_buttons(
                        bs.skip(i as int + 1),
                        cursor_x as int,
                        self.current_screen as int,
                    ).1,
                )) by {
                    assert(actions@ + scan_buttons(
                        bs.skip(i as int + 1),
                        cursor_x as int,
                        self.current_screen as int,
                    ).1 =~= scan_buttons(bs, cursor_x as int, cur0).1);
                }
            }
            i += 1;
        }
        proof {
            assert(bs.skip(n as int) =~= Seq::<ButtonText>::empty());
            assert(actions@ =~= scan_buttons(bs, cursor_x as int, cur0).1);
            assert(pressed(pre, self.screens@[cur as int], cursor_x, cursor_y, pb));
        }
        actions
    }

    /// Pushes a screen onto the stack.
    pub fn new_screen(&mut self, screen: Screen)
        ensures
            final(self).screens@ == old(self).screens@.push(screen),
            final(self).current_screen == old(self).current_screen,
            final(self).width == old(self).width,
            final(self).height == old(self).height,
            final(self).cursor_controller == old(self).cursor_controller,
    {
        self.screens.push(screen);
    }

    /// Makes the named screen current.
    pub fn set_screen(&mut self, screen_index: usize)
        ensures
            final(self).screens == old(self).screens,
            final(self).current_screen == screen_index,
            final(self).width == old(self).width,
            final(self).height == old(self).height,
            final(self).cursor_controller == old(self).cursor_controller,
    {
        self.current_screen = screen_index;
    }
}

} // verus!
