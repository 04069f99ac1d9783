//! Scene navigation: a stack of scenes with push/pop transitions.  Running
//! a scene (input decoding and rendering) happens outside the core; the
//! core owns the stack discipline.

use vstd::prelude::*;

verus! {

use crate::game::Game;
use crate::menu::Menu;

/// What a scene asks the manager to do after a tick.
pub enum SceneAction {
    Continue,
    Push(Scene),
    Pop,
}

/// One entry of the scene stack.
pub enum Scene {
    Game(Game),
    MainMenu(Menu),
    Settings,
}

/// The scene stack; the top scene is the active one.
pub struct SceneManager {
    pub stack: Vec<Scene>,
}

impl SceneManager {
    pub fn new(start_scene: Scene) -> (r: SceneManager)
        ensures
            r.stack@.len() == 1,
            r.stack@[0] == start_scene,
    {
        let mut stack: Vec<Scene> = Vec::new();
        stack.push(start_scene);
        SceneManager { stack }
    }

    /// Applies a scene transition: `Continue` leaves the stack alone,
    /// `Push` enters a new scene, `Pop` leaves the current one (dropping
    /// it); popping an empty stack is a no-op.
    pub fn handle_scene_action(&mut self, action: SceneAction)
        ensures
            action is Continue ==> final(self).stack == old(self).stack,
            (action matches SceneAction::Push(s) ==> final(self).stack@ == old(self).stack@.push(
                s,
            )),
            action is Pop && old(self).stack@.len() > 0 ==> final(self).stack@ == old(
                self,
            ).stack@.drop_last(),
            action is Pop && old(self).stack@.len() == 0 ==> final(self).stack == old(self).stack,
    {
        match action {
            SceneAction::Continue => {},
            SceneAction::Push(x) => {
                self.stack.push(x);
            },
            SceneAction::Pop => {
                if self.stack.len() > 0 {
                    let ghost pre = self.stack@;
                    let popped = self.stack.pop();
                    proof {
                        assert(pre =~= self.stack@.push(pre.last()));
                    }
                }
            },
        }
    }
}

} // verus!
