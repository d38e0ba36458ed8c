//! Which keys are held down.

use std::collections::HashSet;
use vstd::prelude::*;

verus! {

broadcast use vstd::std_specs::hash::group_hash_axioms;

/// The keys that are held down, and those among them that were not held
/// down one frame earlier. A key is given by its code.
pub struct MotorKeyboard {
    new_keys: HashSet<i32>,
    prev_keys: HashSet<i32>,
}

impl MotorKeyboard {
    /// The keys that were held down at the last update.
    pub closed spec fn pressed(&self) -> Set<i32> {
        self.prev_keys@
    }

    /// The keys that were held down at the last update and not at the one
    /// before it.
    pub closed spec fn just_pressed(&self) -> Set<i32> {
        self.new_keys@
    }

    /// A keyboard with no key held down.
    pub fn new() -> (keyboard: MotorKeyboard)
        ensures
            keyboard.pressed() == Set::<i32>::empty(),
            keyboard.just_pressed() == Set::<i32>::empty(),
    {
        MotorKeyboard { new_keys: HashSet::new(), prev_keys: HashSet::new() }
    }

    /// Takes note of the keys that are held down now.
    pub fn update(&mut self, keys: &Vec<i32>)
        ensures
            final(self).pressed() == keys@.to_set(),
            final(self).just_pressed() == keys@.to_set().difference(old(self).pressed()),
    {
        let mut pressed: HashSet<i32> = HashSet::new();
        let mut fresh: HashSet<i32> = HashSet::new();
        let count = keys.len();
        let mut i: usize = 0;
        while i < count
            invariant
                i <= count,
                count == keys@.len(),
                self.prev_keys@ == old(self).prev_keys@,
                pressed@ == keys@.take(i as int).to_set(),
                fresh@ == keys@.take(i as int).to_set().difference(old(self).prev_keys@),
            decreases count - i,
        {
            let key = keys[i];
            proof {
                let before = keys@.take(i as int);
                let after = keys@.take(i as int + 1);
                assert(after =~= before.push(key));
                assert forall|k: i32| after.contains(k) <==> (before.contains(k) || k == key) by {
                    if before.contains(k) {
                        let j = choose|j: int| 0 <= j < before.len() && before[j] == k;
                        assert(after[j] == k);
                    }
                    if k == key {
                        assert(after[i as int] == key);
                    }
                }
                assert(after.to_set() =~= before.to_set().insert(key));
            }
            pressed.insert(key);
            if !self.prev_keys.contains(&key) {
                fresh.insert(key);
                assert(fresh@ =~= keys@.take(i as int + 1).to_set().difference(
                    old(self).prev_keys@,
                ));
            } else {
                assert(fresh@ =~= keys@.take(i as int + 1).to_set().difference(
                    old(self).prev_keys@,
                ));
            }
            i += 1;
        }
        assert(keys@.take(count as int) =~= keys@);
        self.new_keys = fresh;
        self.prev_keys = pressed;
    }

    /// Whether the key is held down.
    pub fn is_key_pressed(&self, key_code: i32) -> (yes: bool)
        ensures
            yes == self.pressed().contains(key_code),
    {
        self.prev_keys.contains(&key_code)
    }

    /// Whether the key is held down and was not one frame earlier.
    pub fn is_key_just_pressed(&self, key_code: i32) -> (yes: bool)
        ensures
            yes == self.just_pressed().contains(key_code),
    {
        self.new_keys.contains(&key_code)
    }
}

} // verus!
