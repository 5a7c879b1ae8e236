//! Global hotkey bindings: which preset each hotkey activates.

use vstd::prelude::*;

use crate::protocol::Preset;

verus! {

/// The binding that preset `p` asks for: its hotkey and its name, when it
/// has a hotkey.
pub open spec fn binding_of(p: Preset) -> Option<(Seq<char>, Seq<char>)> {
    match p.hotkey {
        Some(hotkey) => Some((hotkey@, p.name@)),
        None => None,
    }
}

/// The bindings of `presets` that have a hotkey, in order.
pub open spec fn preset_bindings(presets: Seq<Preset>) -> Seq<(Seq<char>, Seq<char>)> {
    presets.filter_map(|p: Preset| binding_of(p))
}

/// `i` is the first binding for `hotkey` in `bindings`.
pub open spec fn first_binding(bindings: Seq<(Seq<char>, Seq<char>)>, hotkey: Seq<char>, i: int) -> bool {
    &&& 0 <= i < bindings.len()
    &&& bindings[i].0 == hotkey
    &&& forall|k: int| 0 <= k < i ==> (#[trigger] bindings[k]).0 != hotkey
}

/// Manages global hotkey registrations.
pub struct HotkeyManager {
    /// (hotkey, preset name) pairs.
    registered: Vec<(String, String)>,
}

impl HotkeyManager {
    /// The registered (hotkey, preset name) pairs.
    pub closed spec fn bindings(&self) -> Seq<(Seq<char>, Seq<char>)> {
        self.registered@.map_values(|b: (String, String)| (b.0@, b.1@))
    }

    pub fn new() -> (r: Self)
        ensures
            r.bindings().len() == 0,
    {
        HotkeyManager { registered: Vec::new() }
    }

    /// Register hotkeys for all presets that have bindings, replacing the
    /// earlier ones.
    pub fn register_presets(&mut self, presets: &[Preset]) -> (r: Result<(), String>)
        ensures
            r is Ok,
            final(self).bindings() == preset_bindings(presets@),
    {
        self.unregister_all();
        let mut i: usize = 0;
        while i < presets.len()
            invariant
                i <= presets@.len(),
                self.bindings() == preset_bindings(presets@.take(i as int)),
            decreases presets@.len() - i,
        {
            let ghost before = self.registered@;
            let preset = &presets[i];
            match &preset.hotkey {
                Some(hotkey) => {
                    self.registered.push((hotkey.clone(), preset.name.clone()));
                    proof {
                        assert(self.registered@ == before.push((*hotkey, preset.name)));
                    }
                },
                None => {},
            }
            proof {
                let s = presets@.take(i + 1);
                assert(s.drop_last() =~= presets@.take(i as int));
                assert(s.last() == presets@[i as int]);
                assert(self.bindings() =~= preset_bindings(s));
            }
            i = i + 1;
        }
        assert(presets@.take(presets@.len() as int) =~= presets@);
        Ok(())
    }

    /// Unregister all hotkeys.
    pub fn unregister_all(&mut self)
        ensures
            final(self).bindings().len() == 0,
    {
        self.registered.clear();
    }

    /// Look up which preset a hotkey maps to: the first one bound to it.
    pub fn preset_for_hotkey(&self, hotkey_str: &str) -> (r: Option<&str>)
        ensures
            r is None <==> forall|i: int|
                0 <= i < self.bindings().len() ==> (#[trigger] self.bindings()[i]).0 != hotkey_str@,
            r matches Some(name) ==> exists|i: int|
                first_binding(self.bindings(), hotkey_str@, i) && name@ == self.bindings()[i].1,
    {
        let key = String::from_str(hotkey_str);
        let mut i: usize = 0;
        while i < self.registered.len()
            invariant
                i <= self.registered@.len(),
                key@ == hotkey_str@,
                forall|k: int| 0 <= k < i ==> (#[trigger] self.bindings()[k]).0 != hotkey_str@,
            decreases self.registered@.len() - i,
        {
            if self.registered[i].0 == key {
                proof {
                    assert(first_binding(self.bindings(), hotkey_str@, i as int));
                }
                return Some(self.registered[i].1.as_str());
            }
            i = i + 1;
        }
        None
    }
}

/// Preset `p` has exactly the hotkey `hotkey`.
pub open spec fn bound_to(p: Preset, hotkey: Seq<char>) -> bool {
    p.hotkey matches Some(h) && h@ == hotkey
}

/// `i` is the first preset in `presets` with the hotkey `hotkey`.
pub open spec fn first_preset_for(presets: Seq<Preset>, hotkey: Seq<char>, i: int) -> bool {
    &&& 0 <= i < presets.len()
    &&& bound_to(presets[i], hotkey)
    &&& forall|k: int| 0 <= k < i ==> !bound_to(#[trigger] presets[k], hotkey)
}

/// After registering `presets`, a hotkey leads to the first preset that has
/// it, and a hotkey that no preset has leads nowhere.
pub proof fn lemma_registered_lookup(presets: Seq<Preset>, hotkey: Seq<char>)
    ensures
        (forall|i: int| 0 <= i < presets.len() ==> !bound_to(#[trigger] presets[i], hotkey))
            ==> forall|j: int|
            0 <= j < preset_bindings(presets).len() ==> (#[trigger] preset_bindings(presets)[j]).0
                != hotkey,
        forall|i: int|
            first_preset_for(presets, hotkey, i) ==> exists|j: int|
                first_binding(preset_bindings(presets), hotkey, j) && preset_bindings(presets)[j].1
                    == (#[trigger] presets[i]).name@,
    decreases presets.len(),
{
    if presets.len() > 0 {
        let rest = presets.drop_last();
        let last = presets.last();
        lemma_registered_lookup(rest, hotkey);
        let b = preset_bindings(presets);
        let rb = preset_bindings(rest);
        let tail: Seq<(Seq<char>, Seq<char>)> = match binding_of(last) {
            Some(x) => seq![x],
            None => Seq::empty(),
        };
        assert(b == rb + tail);
        assert forall|k: int| 0 <= k < rest.len() implies rest[k] == presets[k] by {}
        if forall|i: int| 0 <= i < presets.len() ==> !bound_to(#[trigger] presets[i], hotkey) {
            assert forall|i: int| 0 <= i < rest.len() implies !bound_to(#[trigger] rest[i], hotkey) by {
                assert(rest[i] == presets[i]);
            }
            assert(!bound_to(presets[presets.len() - 1], hotkey));
            assert forall|j: int| 0 <= j < b.len() implies (#[trigger] b[j]).0 != hotkey by {
                if j < rb.len() {
                    assert(b[j] == rb[j]);
                }
            }
        }
        assert forall|i: int| first_preset_for(presets, hotkey, i) implies exists|j: int|
            first_binding(b, hotkey, j) && b[j].1 == (#[trigger] presets[i]).name@ by {
            if i < presets.len() - 1 {
                assert(first_preset_for(rest, hotkey, i)) by {
                    assert(rest[i] == presets[i]);
                    assert forall|k: int| 0 <= k < i implies !bound_to(#[trigger] rest[k], hotkey) by {
                        assert(rest[k] == presets[k]);
                    }
                }
                assert(rest[i] == presets[i]);
                let j = choose|j: int| first_binding(rb, hotkey, j) && rb[j].1 == (#[trigger] rest[i]).name@;
                assert(first_binding(b, hotkey, j)) by {
                    assert forall|k: int| 0 <= k < j implies (#[trigger] b[k]).0 != hotkey by {
                        assert(b[k] == rb[k]);
                    }
                }
                assert(b[j] == rb[j]);
            } else {
                assert forall|k: int| 0 <= k < rest.len() implies !bound_to(#[trigger] rest[k], hotkey) by {
                    assert(rest[k] == presets[k]);
                }
                let j = rb.len() as int;
                assert(b[j] == tail[0]);
                assert(first_binding(b, hotkey, j)) by {
                    assert forall|k: int| 0 <= k < j implies (#[trigger] b[k]).0 != hotkey by {
                        assert(b[k] == rb[k]);
                    }
                }
            }
        }
    }
}

} // verus!
