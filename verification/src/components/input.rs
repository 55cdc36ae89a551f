use vstd::prelude::*;
use vstd::hash_map::{HashMapWithView, StringHashMap};

verus! {

broadcast use vstd::std_specs::hash::group_hash_axioms;

/// The actions of a binding list, later bindings of a name replacing earlier ones.
pub open spec fn action_map(bindings: Seq<(String, Vec<i32>)>) -> Map<Seq<char>, Seq<i32>>
    decreases bindings.len(),
{
    if bindings.len() == 0 {
        Map::empty()
    } else {
        action_map(bindings.drop_last()).insert(bindings.last().0@, bindings.last().1@)
    }
}

/// Every key code that a binding list mentions.
pub open spec fn bound_keys(bindings: Seq<(String, Vec<i32>)>) -> Set<i32>
    decreases bindings.len(),
{
    if bindings.len() == 0 {
        Set::empty()
    } else {
        bound_keys(bindings.drop_last()).union(bindings.last().1@.to_set())
    }
}

/// An action is pressed when one of its keys is held down.
pub open spec fn action_pressed(keys: Seq<i32>, pressed: Map<i32, bool>) -> bool {
    exists|i: int| 0 <= i < keys.len() && pressed[#[trigger] keys[i]]
}

/// The key state after `code` goes up or down: only keys that are tracked change.
pub open spec fn key_update(pressed: Map<i32, bool>, code: i32, down: bool) -> Map<i32, bool> {
    if pressed.contains_key(code) {
        pressed.insert(code, down)
    } else {
        pressed
    }
}

/// Keyboard state: named actions bound to key codes, and which of the bound
/// keys are held down. Mouse position and display scaling are kept by the caller.
pub struct Input {
    pub actions: StringHashMap<Vec<i32>>,
    pub pressed_keys: HashMapWithView<i32, bool>,
    pub mouse_pressed: bool,
}

impl Input {
    /// Every key of every action is tracked.
    pub open spec fn wf(&self) -> bool {
        forall|a: Seq<char>, i: int|
            #![trigger self.actions@[a]@[i]]
            self.actions@.contains_key(a) && 0 <= i < self.actions@[a]@.len()
                ==> self.pressed_keys@.contains_key(self.actions@[a]@[i])
    }

    /// Every key bound to the action `a` is tracked.
    pub open spec fn tracks_action(&self, a: Seq<char>) -> bool {
        forall|i: int|
            0 <= i < self.actions@[a]@.len() ==> #[trigger] self.pressed_keys@.contains_key(self.actions@[a]@[i])
    }

    /// The key codes bound to each action.
    pub open spec fn spec_actions(&self) -> Map<Seq<char>, Seq<i32>> {
        Map::new(|a: Seq<char>| self.actions@.contains_key(a), |a: Seq<char>| self.actions@[a]@)
    }

    /// Whether the action `a` is pressed.
    pub open spec fn spec_is_pressed(&self, a: Seq<char>) -> bool {
        action_pressed(self.actions@[a]@, self.pressed_keys@)
    }

    /// Binds the actions of `actions` and tracks every key they mention, none held down.
    pub fn new(actions: Vec<(String, Vec<i32>)>) -> (input: Input)
        ensures
            input.spec_actions() == action_map(actions@),
            input.pressed_keys@.dom() == bound_keys(actions@),
            forall|k: i32| #[trigger] input.pressed_keys@.contains_key(k) ==> !input.pressed_keys@[k],
            !input.mouse_pressed,
            input.wf(),
    {
        let mut key_map: HashMapWithView<i32, bool> = HashMapWithView::new();
        let mut action_table: StringHashMap<Vec<i32>> = StringHashMap::new();
        let n = actions.len();
        for i in 0..n
            invariant
                n == actions@.len(),
                action_table@.dom() == action_map(actions@.take(i as int)).dom(),
                forall|a: Seq<char>| #[trigger] action_table@.contains_key(a) ==> action_table@[a]@ == action_map(actions@.take(i as int))[a],
                key_map@.dom() == bound_keys(actions@.take(i as int)),
                forall|k: i32| #[trigger] key_map@.contains_key(k) ==> !key_map@[k],
        {
            let codes = &actions[i].1;
            let m = codes.len();
            let ghost before = key_map@.dom();
            for j in 0..m
                invariant
                    m == codes@.len(),
                    key_map@.dom() == before.union(codes@.take(j as int).to_set()),
                    forall|k: i32| #[trigger] key_map@.contains_key(k) ==> !key_map@[k],
            {
                key_map.insert(codes[j], false);
                proof {
                    assert(codes@.take(j + 1) =~= codes@.take(j as int).push(codes@[j as int]));
                    assert(codes@.take(j + 1).to_set() =~= codes@.take(j as int).to_set().insert(codes@[j as int])) by {
                        codes@.take(j as int).lemma_push_to_set_commute(codes@[j as int]);
                    }
                    assert(key_map@.dom() =~= before.union(codes@.take(j + 1).to_set()));
                }
            }
            proof {
                assert(codes@.take(m as int) =~= codes@);
                assert(actions@.take(i + 1).drop_last() =~= actions@.take(i as int));
            }
            action_table.insert(actions[i].0.clone(), actions[i].1.clone());
            proof {
                assert(actions@[i as int].1@ =~= actions@.take(i + 1).last().1@);
            }
        }
        proof {
            assert(actions@.take(n as int) =~= actions@);
        }
        let input = Input { actions: action_table, pressed_keys: key_map, mouse_pressed: false };
        proof {
            lemma_bound_keys_cover(actions@);
            assert(input.spec_actions() =~= action_map(actions@));
            assert forall|a: Seq<char>, i: int|
                #![trigger input.actions@[a]@[i]]
                input.actions@.contains_key(a) && 0 <= i < input.actions@[a]@.len()
                    implies input.pressed_keys@.contains_key(input.actions@[a]@[i]) by {
                assert(action_map(actions@)[a][i] == input.actions@[a]@[i]);
            }
        }
        input
    }

    /// Whether one of the keys bound to `action` is held down.
    pub fn is_pressed(&self, action: &str) -> (r: bool)
        requires
            self.actions@.contains_key(action@),
            self.tracks_action(action@),
        ensures
            r == self.spec_is_pressed(action@),
    {
        let keys = self.actions.get(action).unwrap();
        let n = keys.len();
        let mut result = false;
        for i in 0..n
            invariant
                n == keys@.len(),
                *keys == self.actions@[action@],
                self.tracks_action(action@),
                self.actions@.contains_key(action@),
                result == action_pressed(keys@.take(i as int), self.pressed_keys@),
        {
            assert(self.pressed_keys@.contains_key(keys@[i as int]));
            let pressed = *self.pressed_keys.get(&keys[i]).unwrap();
            proof {
                let t = keys@.take(i + 1);
                assert(t[i as int] == keys@[i as int]);
                if action_pressed(keys@.take(i as int), self.pressed_keys@) {
                    let w = choose|w: int| 0 <= w < i && self.pressed_keys@[#[trigger] keys@.take(i as int)[w]];
                    assert(t[w] == keys@.take(i as int)[w]);
                }
                if action_pressed(t, self.pressed_keys@) {
                    let w = choose|w: int| 0 <= w < i + 1 && self.pressed_keys@[#[trigger] t[w]];
                    if w < i {
                        assert(t[w] == keys@.take(i as int)[w]);
                    }
                }
            }
            result = pressed || result;
        }
        assert(keys@.take(n as int) =~= keys@);
        result
    }

    /// A key bound to `action` that no key state is kept for, if there is one.
    pub fn untracked_key(&self, action: &str) -> (k: Option<i32>)
        requires
            self.actions@.contains_key(action@),
        ensures
            k is None <==> self.tracks_action(action@),
            match k {
                Some(code) => self.actions@[action@]@.contains(code) && !self.pressed_keys@.contains_key(code),
                None => true,
            },
    {
        let keys = self.actions.get(action).unwrap();
        let n = keys.len();
        for i in 0..n
            invariant
                n == keys@.len(),
                *keys == self.actions@[action@],
                forall|j: int| 0 <= j < i ==> #[trigger] self.pressed_keys@.contains_key(keys@[j]),
        {
            if !self.pressed_keys.contains_key(&keys[i]) {
                assert(keys@[i as int] == keys[i as int]);
                return Some(keys[i]);
            }
        }
        None
    }

    /// Records that the key `code` went down (`pressed`) or up; keys that no
    /// action uses are ignored.
    pub fn set_pressed(&mut self, code: &i32, pressed: bool)
        ensures
            final(self).pressed_keys@ == key_update(old(self).pressed_keys@, *code, pressed),
            final(self).actions@ == old(self).actions@,
            final(self).mouse_pressed == old(self).mouse_pressed,
            old(self).wf() ==> final(self).wf(),
    {
        if self.pressed_keys.contains_key(code) {
            self.pressed_keys.insert(*code, pressed);
        }
    }
}

proof fn lemma_bound_keys_cover(bindings: Seq<(String, Vec<i32>)>)
    ensures
        forall|a: Seq<char>, i: int|
            #![trigger action_map(bindings)[a][i]]
            action_map(bindings).contains_key(a) && 0 <= i < action_map(bindings)[a].len()
                ==> bound_keys(bindings).contains(action_map(bindings)[a][i]),
    decreases bindings.len(),
{
    if bindings.len() > 0 {
        let d = bindings.drop_last();
        lemma_bound_keys_cover(d);
        assert forall|a: Seq<char>, i: int|
            #![trigger action_map(bindings)[a][i]]
            action_map(bindings).contains_key(a) && 0 <= i < action_map(bindings)[a].len()
                implies bound_keys(bindings).contains(action_map(bindings)[a][i]) by {
            if a == bindings.last().0@ {
                assert(bindings.last().1@.to_set().contains(bindings.last().1@[i]));
            } else {
                assert(action_map(bindings)[a] == action_map(d)[a]);
            }
        }
    }
}

/// Pressing a key bound to an action makes the action pressed; with every
/// key of the action up, the action is not pressed.
pub proof fn lemma_press_and_release(keys: Seq<i32>, pressed: Map<i32, bool>, code: i32)
    requires
        pressed.contains_key(code),
        keys.contains(code),
    ensures
        action_pressed(keys, key_update(pressed, code, true)),
        (forall|i: int| 0 <= i < keys.len() && keys[i] != code ==> !pressed[#[trigger] keys[i]])
            ==> !action_pressed(keys, key_update(pressed, code, false)),
{
    let w = choose|w: int| 0 <= w < keys.len() && keys[w] == code;
    assert(key_update(pressed, code, true)[keys[w]]);
}

} // verus!
