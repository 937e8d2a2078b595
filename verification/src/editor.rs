//! The stack of editor screens: each screen is pushed with the mode it was
//! opened in, and a screen that closes can hand data to the one below it.

use crate::attacks::AttackInfo;
use crate::bullets::BulletInfo;
use crate::states::{Animation, CharacterState};
use vstd::prelude::*;

verus! {

/// How a screen was opened.
#[derive(Debug, Clone, PartialEq)]
pub enum Mode {
    Standalone,
    Edit(String),
    New,
}

/// Data a closing screen hands to the screen below.
pub enum MessageData {
    Animation(Animation),
    State(CharacterState),
    BulletInfo(BulletInfo),
    AttackInfo(AttackInfo),
}

/// What a screen asks of the stack after an update.
pub enum Transition<S> {
    NoChange,
    Pop(Option<MessageData>),
    Push(Box<S>, Mode),
}

/// Where an editing screen stands after its menu was used.
#[derive(Clone, Copy, Debug, PartialEq, Eq, Structural)]
pub enum Status {
    DoneAndSave,
    DoneAndQuit,
    NotDone,
}

/// What an editing screen does on its next update.
#[derive(Clone, Copy, Debug, PartialEq, Eq, Structural)]
pub enum Finish {
    /// Stays open and passes on its pending transition.
    Stay,
    /// Writes its work back, then closes.
    SaveAndClose,
    /// Closes without writing back.
    Close,
}

/// What an editing screen with `status` does on its next update; the
/// status is then cleared.
pub fn finish(status: &mut Status) -> (r: Finish)
    ensures
        *old(status) == Status::NotDone ==> r == Finish::Stay,
        *old(status) == Status::DoneAndSave ==> r == Finish::SaveAndClose,
        *old(status) == Status::DoneAndQuit ==> r == Finish::Close,
        *final(status) == Status::NotDone,
{
    let r = match *status {
        Status::NotDone => Finish::Stay,
        Status::DoneAndSave => Finish::SaveAndClose,
        Status::DoneAndQuit => Finish::Close,
    };
    *status = Status::NotDone;
    r
}

/// The open screens, the top one last.
pub struct GameEditor<S> {
    game_state: Vec<(S, Mode)>,
}

/// The stack after a transition; `Pop` with data also takes the top screen.
pub open spec fn after_transition<S>(stack: Seq<(S, Mode)>, t: Transition<S>) -> Seq<(S, Mode)> {
    match t {
        Transition::NoChange => stack,
        Transition::Pop(_) => if stack.len() > 0 {
            stack.drop_last()
        } else {
            stack
        },
        Transition::Push(s, m) => stack.push((*s, m)),
    }
}

impl<S> GameEditor<S> {
    pub closed spec fn screens(&self) -> Seq<(S, Mode)> {
        self.game_state@
    }

    /// A stack holding `first`, opened standalone.
    pub fn new(first: S) -> (r: Self)
        ensures
            r.screens().len() == 1,
            r.screens()[0].0 == first,
            r.screens()[0].1 is Standalone,
    {
        let mut game_state = Vec::new();
        game_state.push((first, Mode::Standalone));
        GameEditor { game_state }
    }

    /// No screen is left: the editor is done.
    pub fn is_empty(&self) -> (b: bool)
        ensures
            b == (self.screens().len() == 0),
    {
        self.game_state.len() == 0
    }

    /// The number of open screens.
    pub fn len(&self) -> (n: usize)
        ensures
            n == self.screens().len(),
    {
        self.game_state.len()
    }

    /// Takes the top screen off, to run it.
    pub fn take_top(&mut self) -> (r: Option<(S, Mode)>)
        ensures
            old(self).screens().len() == 0 ==> r is None && final(self).screens() == old(self).screens(),
            old(self).screens().len() > 0 ==> r == Some(old(self).screens().last())
                && final(self).screens() == old(self).screens().drop_last(),
    {
        self.game_state.pop()
    }

    /// Puts a screen back on top.
    pub fn put_back(&mut self, screen: S, mode: Mode)
        ensures
            final(self).screens() == old(self).screens().push((screen, mode)),
    {
        self.game_state.push((screen, mode));
    }

    /// The top screen.
    pub fn top(&self) -> (r: Option<&S>)
        ensures
            self.screens().len() == 0 ==> r is None,
            self.screens().len() > 0 ==> r == Some(&self.screens().last().0),
    {
        let n = self.game_state.len();
        if n == 0 {
            None
        } else {
            Some(&self.game_state[n - 1].0)
        }
    }

    /// Applies `t`. When a screen closes with data, hands back that data and
    /// the mode the closed screen was opened in, for the new top screen.
    pub fn apply(&mut self, t: Transition<S>) -> (r: Option<(MessageData, Mode)>)
        requires
            t matches Transition::Pop(Some(_)) ==> old(self).screens().len() >= 2,
        ensures
            final(self).screens() == after_transition(old(self).screens(), t),
            t matches Transition::Pop(Some(d)) ==> r matches Some(p) && p.0 == d && p.1 == old(
                self,
            ).screens().last().1,
            !(t matches Transition::Pop(Some(_))) ==> r is None,
    {
        match t {
            Transition::NoChange => None,
            Transition::Pop(Some(passed_data)) => {
                let (_, mode) = self.game_state.pop().unwrap();
                Some((passed_data, mode))
            },
            Transition::Pop(None) => {
                let _ = self.game_state.pop();
                None
            },
            Transition::Push(state, mode) => {
                self.game_state.push((*state, mode));
                None
            },
        }
    }
}

/// Opening a screen and closing it again leaves the stack as it was, and a
/// screen that closes with data hands it, with its mode, to the screen
/// that opened it.
pub proof fn lemma_push_then_pop<S>(stack: Seq<(S, Mode)>, s: S, m: Mode, d: Option<MessageData>)
    ensures
        after_transition(
            after_transition(stack, Transition::Push(Box::new(s), m)),
            Transition::Pop(d),
        ) == stack,
        after_transition(stack, Transition::Push(Box::new(s), m)).last().1 == m,
{
    assert(stack.push((s, m)).drop_last() =~= stack);
}

} // verus!
