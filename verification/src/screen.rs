use vstd::prelude::*;
use vstd::hash_map::StringHashMap;
use crate::components::screen_change::ScreenChange;

verus! {

/// What the caller has to do to the screens after a change request.
#[derive(Clone, Copy, Debug, PartialEq, Eq, Structural)]
pub enum ScreenAction {
    /// Nothing was requested.
    Nothing,
    /// Clear the world and, if the current screen is registered, set it up again.
    Restart,
    /// Clear the world and set up the (new) current screen.
    Start,
    /// Hand the requested action to the current screen.
    Custom,
}

/// The state of the screen manager: the name of the current screen, the
/// names of the registered screens and the restart flag.
pub struct ScreenManagerView {
    pub current: Seq<char>,
    pub screens: Set<Seq<char>>,
    pub restart_next_frame: bool,
}

/// Which screen is active, among the registered ones. The screens themselves
/// (their setup and update code) are held by the caller under the same names.
pub struct ScreenManager {
    current_state: String,
    states: StringHashMap<()>,
    pub restart_next_frame: bool,
}

impl View for ScreenManager {
    type V = ScreenManagerView;

    closed spec fn view(&self) -> ScreenManagerView {
        ScreenManagerView {
            current: self.current_state@,
            screens: self.states@.dom(),
            restart_next_frame: self.restart_next_frame,
        }
    }
}

/// The action a change request calls for.
pub open spec fn requested_action(screen: Seq<char>, action: Seq<char>) -> ScreenAction {
    if action.len() == 0 || screen.len() == 0 {
        ScreenAction::Nothing
    } else if action == "restart"@ {
        ScreenAction::Restart
    } else if action == "start"@ {
        ScreenAction::Start
    } else {
        ScreenAction::Custom
    }
}

/// What a change request calls for, case by case: a request with an empty
/// screen or an empty action is ignored, whatever the action; otherwise
/// "restart" restarts, "start" starts, and any other action is handed to
/// the current screen.
pub open spec fn action_fits(screen: Seq<char>, action: Seq<char>, a: ScreenAction) -> bool {
    &&& screen.len() == 0 || action.len() == 0 ==> a == ScreenAction::Nothing
    &&& screen.len() > 0 && action == "restart"@ ==> a == ScreenAction::Restart
    &&& screen.len() > 0 && action == "start"@ ==> a == ScreenAction::Start
    &&& screen.len() > 0 && action.len() > 0 && action != "restart"@ && action != "start"@
        ==> a == ScreenAction::Custom
}

/// Every change request is answered as `action_fits` says.
pub proof fn lemma_requested_action_fits(screen: Seq<char>, action: Seq<char>)
    ensures
        action_fits(screen, action, requested_action(screen, action)),
{
    reveal_strlit("restart");
    reveal_strlit("start");
    assert("restart"@.len() == 7);
    assert("start"@.len() == 5);
}

/// The action a change request calls for.
pub fn requested_action_of(screen_change: &ScreenChange) -> (a: ScreenAction)
    ensures
        a == requested_action(screen_change.screen@, screen_change.action@),
        action_fits(screen_change.screen@, screen_change.action@, a),
{
    proof {
        lemma_requested_action_fits(screen_change.screen@, screen_change.action@);
    }
    if screen_change.action.as_str().is_empty() || screen_change.screen.as_str().is_empty() {
        return ScreenAction::Nothing;
    }
    let restart = String::from_str("restart");
    let start = String::from_str("start");
    if screen_change.action == restart {
        ScreenAction::Restart
    } else if screen_change.action == start {
        ScreenAction::Start
    } else {
        ScreenAction::Custom
    }
}

impl ScreenManager {
    /// No screens registered, none current.
    pub fn new() -> (m: ScreenManager)
        ensures
            m@.current == Seq::<char>::empty(),
            m@.screens == Set::<Seq<char>>::empty(),
            !m@.restart_next_frame,
    {
        ScreenManager { current_state: String::new(), states: StringHashMap::new(), restart_next_frame: false }
    }

    /// Registers the screen `name`.
    pub fn add_state(&mut self, name: String)
        ensures
            final(self)@.screens == old(self)@.screens.insert(name@),
            final(self)@.current == old(self)@.current,
            final(self)@.restart_next_frame == old(self)@.restart_next_frame,
    {
        self.states.insert(name, ());
    }

    /// The name of the current screen (empty before any screen is made current).
    pub fn current_state(&self) -> (name: &String)
        ensures
            name@ == self@.current,
    {
        &self.current_state
    }

    /// Acts on a change request: "restart" restarts the current screen,
    /// "start" makes `screen` current (registered or not: the caller sets up
    /// only a registered one), any other action goes to the current screen,
    /// which must be registered; a request with an empty action or screen
    /// does nothing.
    pub fn process_state_change(&mut self, screen_change: &ScreenChange) -> (a: ScreenAction)
        requires
            requested_action(screen_change.screen@, screen_change.action@) == ScreenAction::Custom
                ==> old(self)@.screens.contains(old(self)@.current),
        ensures
            a == requested_action(screen_change.screen@, screen_change.action@),
            action_fits(screen_change.screen@, screen_change.action@, a),
            final(self)@.current == if a == ScreenAction::Start {
                screen_change.screen@
            } else {
                old(self)@.current
            },
            final(self)@.screens == old(self)@.screens,
            final(self)@.restart_next_frame == old(self)@.restart_next_frame,
    {
        let action = requested_action_of(screen_change);
        if action == ScreenAction::Start {
            let _ = self.swap_state(screen_change.screen.clone());
        }
        action
    }

    /// Whether restarting sets the current screen up again (it does when the
    /// current screen is registered).
    pub fn restart_current_state(&self) -> (r: bool)
        ensures
            r == self@.screens.contains(self@.current),
    {
        self.states.contains_key(self.current_state.as_str())
    }

    /// Makes the screen `name` current and says whether it is registered
    /// (the caller can set up only a registered screen).
    pub fn swap_state(&mut self, name: String) -> (found: bool)
        ensures
            final(self)@.current == name@,
            found == old(self)@.screens.contains(name@),
            final(self)@.screens == old(self)@.screens,
            final(self)@.restart_next_frame == old(self)@.restart_next_frame,
    {
        self.current_state = name;
        self.states.contains_key(self.current_state.as_str())
    }

    /// The screen to update this frame: the current one, which must be registered.
    pub fn update(&self) -> (name: &String)
        requires
            self@.screens.contains(self@.current),
        ensures
            name@ == self@.current,
    {
        &self.current_state
    }
}

} // verus!
