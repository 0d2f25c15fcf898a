use crate::binds::{first_char_match, first_key_match, Action, Binds, Key};
use crate::loader::{candidate, Direction, ImageLoader, Move};
use crate::view::{apply_op, lemma_scale_inverse, same_map, well_formed, Affine, MatrixOp};
use vstd::prelude::*;

verus! {

/// Whether the event loop goes on or ends.
#[derive(Copy, Clone, Debug, PartialEq, Eq, Structural)]
pub enum ControlSignal {
    Continue,
    Quit,
}

/// What an action asks for: an operation on the view transform, a move
/// through the images in a direction, a toggle of fullscreen, or the end of
/// the event loop.
#[derive(Copy, Clone, Debug, PartialEq, Eq, Structural)]
pub enum Outcome {
    View(MatrixOp),
    Navigate(Direction),
    ToggleFullscreen,
    Quit,
}

/// How an input was taken. `NotConsumed` leaves everything as it was.
/// `Navigate` hands over a move through the images, begun from the cursor
/// and with a candidate to decode; the input is consumed exactly when the
/// move lands (`Move::moved`).
pub enum Response {
    NotConsumed,
    View(MatrixOp),
    ToggleFullscreen,
    Quit,
    Navigate(Move),
}

/// `r` is how `action` is taken with `loader` as it stands.
pub open spec fn responds(r: &Response, action: Action, loader: &ImageLoader) -> bool {
    match action_outcome(action) {
        Outcome::Navigate(dir) => match candidate(loader.paths().len() as int, loader.cursor(), dir) {
            None => r is NotConsumed,
            Some(k) => r matches Response::Navigate(m) && m.follows(loader) && m.start() == loader.cursor()
                && m.direction() == dir && m.landed() is None && m.pending() == Some(k)
                && m.outcomes() == Map::<int, bool>::empty(),
        },
        Outcome::View(op) => r matches Response::View(o) && o == op,
        Outcome::ToggleFullscreen => r is ToggleFullscreen,
        Outcome::Quit => r is Quit,
    }
}

/// A key event: the symbolic key, where the window system knows it, and
/// whether it was pressed (rather than released).
#[derive(Copy, Clone, Debug, PartialEq, Eq, Structural)]
pub struct KeyEvent {
    pub key: Option<Key>,
    pub pressed: bool,
}

/// Steps the view moves by, each half the view; the zoom factor is two.
pub open spec fn action_outcome(a: Action) -> Outcome {
    match a {
        Action::MoveDown => Outcome::View(MatrixOp::Translate { x: 0, y: 1 }),
        Action::MoveLeft => Outcome::View(MatrixOp::Translate { x: 1, y: 0 }),
        Action::MoveRight => Outcome::View(MatrixOp::Translate { x: -1i32, y: 0 }),
        Action::MoveUp => Outcome::View(MatrixOp::Translate { x: 0, y: -1i32 }),
        Action::NextImage => Outcome::Navigate(Direction::Forward),
        Action::PrevImage => Outcome::Navigate(Direction::Backward),
        Action::Quit => Outcome::Quit,
        Action::Reset => Outcome::View(MatrixOp::Reset),
        Action::RotateLeft => Outcome::View(MatrixOp::Rotate { quarter_turns: 1 }),
        Action::RotateRight => Outcome::View(MatrixOp::Rotate { quarter_turns: -1i32 }),
        Action::ZoomIn => Outcome::View(MatrixOp::Scale { numer: 2, denom: 1 }),
        Action::ZoomOut => Outcome::View(MatrixOp::Scale { numer: 1, denom: 2 }),
        Action::ToggleFullscreen => Outcome::ToggleFullscreen,
    }
}

/// The control value after an action: `Quit` ends the loop, every other
/// action leaves it as it was.
pub open spec fn signal_after(a: Action, before: ControlSignal) -> ControlSignal {
    if a == Action::Quit {
        ControlSignal::Quit
    } else {
        before
    }
}

/// Turns input into actions through a binding table.
pub struct Input {
    binds: Binds,
}

impl Input {
    pub closed spec fn table(&self) -> Seq<(Option<char>, Option<Key>, Action)> {
        self.binds.table()
    }

    pub fn new(binds: &Binds) -> (r: Input)
        ensures
            r.table() == binds.table(),
    {
        Input { binds: binds.copied() }
    }

    /// Takes `action`: a view operation, a toggle of fullscreen, the end of
    /// the loop (which also sets `control_flow`), or a move through the
    /// images. A move with no candidate in its direction is not consumed.
    pub fn perform_action(action: &Action, loader: &ImageLoader, control_flow: &mut ControlSignal) -> (r: Response)
        requires
            loader.well_formed(),
        ensures
            responds(&r, *action, loader),
            *final(control_flow) == signal_after(*action, *old(control_flow)),
    {
        match action {
            Action::MoveDown => Response::View(MatrixOp::Translate { x: 0, y: 1 }),
            Action::MoveLeft => Response::View(MatrixOp::Translate { x: 1, y: 0 }),
            Action::MoveRight => Response::View(MatrixOp::Translate { x: -1, y: 0 }),
            Action::MoveUp => Response::View(MatrixOp::Translate { x: 0, y: -1 }),
            Action::NextImage => Self::navigate(loader, Direction::Forward),
            Action::PrevImage => Self::navigate(loader, Direction::Backward),
            Action::Quit => {
                *control_flow = ControlSignal::Quit;
                Response::Quit
            },
            Action::Reset => Response::View(MatrixOp::Reset),
            Action::RotateLeft => Response::View(MatrixOp::Rotate { quarter_turns: 1 }),
            Action::RotateRight => Response::View(MatrixOp::Rotate { quarter_turns: -1 }),
            Action::ZoomIn => Response::View(MatrixOp::Scale { numer: 2, denom: 1 }),
            Action::ZoomOut => Response::View(MatrixOp::Scale { numer: 1, denom: 2 }),
            Action::ToggleFullscreen => Response::ToggleFullscreen,
        }
    }

    fn navigate(loader: &ImageLoader, dir: Direction) -> (r: Response)
        requires
            loader.well_formed(),
        ensures
            match candidate(loader.paths().len() as int, loader.cursor(), dir) {
                None => r is NotConsumed,
                Some(k) => r matches Response::Navigate(m) && m.follows(loader) && m.start() == loader.cursor()
                    && m.direction() == dir && m.landed() is None && m.pending() == Some(k)
                    && m.outcomes() == Map::<int, bool>::empty(),
            },
    {
        let m = loader.begin_move(dir);
        if m.candidate().is_none() {
            Response::NotConsumed
        } else {
            Response::Navigate(m)
        }
    }

    /// Handles a typed character: not consumed, with nothing changed, where
    /// no row binds it; else its action is taken.
    pub fn handle_char(&self, character: char, loader: &ImageLoader, control_flow: &mut ControlSignal) -> (r: Response)
        requires
            loader.well_formed(),
        ensures
            match first_char_match(self.table(), character) {
                None => r is NotConsumed && *final(control_flow) == *old(control_flow),
                Some(a) => responds(&r, a, loader) && *final(control_flow) == signal_after(a, *old(control_flow)),
            },
    {
        match self.binds.get_action_char(character) {
            Some(action) => Self::perform_action(&action, loader, control_flow),
            None => Response::NotConsumed,
        }
    }

    /// Handles a key event: only a press of a known key that some row binds
    /// is taken; anything else is not consumed and changes nothing.
    pub fn handle(&self, event: &KeyEvent, loader: &ImageLoader, control_flow: &mut ControlSignal) -> (r: Response)
        requires
            loader.well_formed(),
        ensures
            match event.key {
                Some(k) if event.pressed => match first_key_match(self.table(), k) {
                    None => r is NotConsumed && *final(control_flow) == *old(control_flow),
                    Some(a) => responds(&r, a, loader) && *final(control_flow) == signal_after(a, *old(control_flow)),
                },
                _ => r is NotConsumed && *final(control_flow) == *old(control_flow),
            },
    {
        if event.pressed {
            if let Some(key) = event.key {
                if let Some(action) = self.binds.get_action(key) {
                    return Self::perform_action(&action, loader, control_flow);
                }
            }
        }
        Response::NotConsumed
    }
}

/// The zoom actions scale by exact inverses, so zooming in and then out
/// gives back the view one started from, whatever it was.
pub proof fn lemma_zoom_in_out(m: Affine)
    requires
        well_formed(m),
    ensures
        action_outcome(Action::ZoomIn) matches Outcome::View(zoom_in)
            && action_outcome(Action::ZoomOut) matches Outcome::View(zoom_out)
            && same_map(apply_op(apply_op(m, zoom_in), zoom_out), m),
{
    lemma_scale_inverse(m, 2, 1);
}

} // verus!
