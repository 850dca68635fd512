//! Actions and the table that binds input byte sequences to them.

use vstd::prelude::*;
use crate::config::ConfigError;

verus! {

/// What a bound key does to the selector.
#[derive(Debug, Clone, Copy, PartialEq, Eq, Structural)]
pub enum Action {
    SelectPrev,
    SelectNext,
    Backspace,
}

/// The action a configuration names, if any.
pub open spec fn action_named(name: Seq<char>) -> Option<Action> {
    if name == "select-prev"@ {
        Some(Action::SelectPrev)
    } else if name == "select-next"@ {
        Some(Action::SelectNext)
    } else if name == "backspace"@ {
        Some(Action::Backspace)
    } else {
        None
    }
}

/// The built-in bindings: the arrow keys in both cursor modes, `^K` and `^E`
/// up, `^J` and `^N` down, `^H` and DEL for backspace.
pub open spec fn default_bindings() -> Seq<(Seq<u8>, Action)> {
    seq![
        (seq![0x1bu8, 0x5b, 0x41], Action::SelectPrev),
        (seq![0x1bu8, 0x4f, 0x41], Action::SelectPrev),
        (seq![0x0bu8], Action::SelectPrev),
        (seq![0x05u8], Action::SelectPrev),
        (seq![0x1bu8, 0x5b, 0x42], Action::SelectNext),
        (seq![0x1bu8, 0x4f, 0x42], Action::SelectNext),
        (seq![0x0au8], Action::SelectNext),
        (seq![0x0eu8], Action::SelectNext),
        (seq![0x08u8], Action::Backspace),
        (seq![0x7fu8], Action::Backspace),
    ]
}

/// The action of the first entry of `entries` whose key is `key`.
pub open spec fn first_match(entries: Seq<(Seq<u8>, Action)>, key: Seq<u8>) -> Option<Action>
    decreases entries.len(),
{
    if entries.len() == 0 {
        None
    } else if entries[0].0 == key {
        Some(entries[0].1)
    } else {
        first_match(entries.drop_first(), key)
    }
}

/// The action that `key` is bound to: the first user binding of that key
/// (whose action name must be known), else the built-in binding, if any.
pub open spec fn bound_action(user: Seq<(Seq<u8>, Seq<char>)>, key: Seq<u8>) -> Option<Action>
    decreases user.len(),
{
    if user.len() == 0 {
        first_match(default_bindings(), key)
    } else if user[0].0 == key {
        action_named(user[0].1)
    } else {
        bound_action(user.drop_first(), key)
    }
}

/// The user bindings as plain values.
pub open spec fn bindings_view(b: Seq<(Vec<u8>, String)>) -> Seq<(Seq<u8>, Seq<char>)> {
    b.map_values(|e: (Vec<u8>, String)| (e.0@, e.1@))
}

proof fn lemma_first_match_concat(a: Seq<(Seq<u8>, Action)>, b: Seq<(Seq<u8>, Action)>, key: Seq<u8>)
    ensures
        first_match(a + b, key) == (match first_match(a, key) {
            Some(x) => Some(x),
            None => first_match(b, key),
        }),
    decreases a.len(),
{
    if a.len() > 0 {
        assert((a + b).drop_first() == a.drop_first() + b);
        lemma_first_match_concat(a.drop_first(), b, key);
    } else {
        assert(a + b == b);
    }
}

/// Resolves an action name.
pub fn action_by_name(name: &String) -> (r: Option<Action>)
    ensures
        r == action_named(name@),
{
    if *name == "select-prev".to_owned() {
        Some(Action::SelectPrev)
    } else if *name == "select-next".to_owned() {
        Some(Action::SelectNext)
    } else if *name == "backspace".to_owned() {
        Some(Action::Backspace)
    } else {
        None
    }
}

/// Input byte sequences bound to actions; the first entry for a key wins.
pub struct ActionTable {
    entries: Vec<(Vec<u8>, Action)>,
}

impl View for ActionTable {
    type V = Seq<(Seq<u8>, Action)>;

    closed spec fn view(&self) -> Seq<(Seq<u8>, Action)> {
        self.entries@.map_values(|e: (Vec<u8>, Action)| (e.0@, e.1))
    }
}

impl ActionTable {
    /// The action bound to `key`, if any.
    pub open spec fn action_of(&self, key: Seq<u8>) -> Option<Action> {
        first_match(self@, key)
    }

    /// A table that binds nothing.
    pub fn empty() -> (r: ActionTable)
        ensures
            r@.len() == 0,
    {
        let r = ActionTable { entries: Vec::new() };
        proof {
            assert(r@ =~= Seq::<(Seq<u8>, Action)>::empty());
        }
        r
    }

    /// Looks `key` up.
    pub fn lookup(&self, key: &[u8]) -> (r: Option<Action>)
        ensures
            r == self.action_of(key@),
    {
        let mut i: usize = 0;
        proof {
            assert(self@.skip(0) == self@);
        }
        while i < self.entries.len()
            invariant
                i <= self.entries@.len(),
                first_match(self@, key@) == first_match(self@.skip(i as int), key@),
            decreases self.entries@.len() - i,
        {
            proof {
                assert(self@.skip(i as int).drop_first() == self@.skip(i + 1));
            }
            if bytes_equal(self.entries[i].0.as_slice(), key) {
                return Some(self.entries[i].1);
            }
            i = i + 1;
        }
        None
    }
}

/// Whether two byte strings are equal.
pub fn bytes_equal(a: &[u8], b: &[u8]) -> (r: bool)
    ensures
        r == (a@ == b@),
{
    if a.len() != b.len() {
        return false;
    }
    let mut i: usize = 0;
    while i < a.len()
        invariant
            i <= a@.len() == b@.len(),
            a@.take(i as int) == b@.take(i as int),
        decreases a@.len() - i,
    {
        if a[i] != b[i] {
            return false;
        }
        proof {
            assert(a@.take(i + 1) == a@.take(i as int).push(a@[i as int]));
            assert(b@.take(i + 1) == b@.take(i as int).push(b@[i as int]));
        }
        i = i + 1;
    }
    proof {
        assert(a@.take(i as int) == a@);
        assert(b@.take(i as int) == b@);
    }
    true
}

fn default_entries() -> (r: Vec<(Vec<u8>, Action)>)
    ensures
        r@.map_values(|e: (Vec<u8>, Action)| (e.0@, e.1)) == default_bindings(),
{
    let r = vec![
        (vec![0x1bu8, 0x5b, 0x41], Action::SelectPrev),
        (vec![0x1bu8, 0x4f, 0x41], Action::SelectPrev),
        (vec![0x0bu8], Action::SelectPrev),
        (vec![0x05u8], Action::SelectPrev),
        (vec![0x1bu8, 0x5b, 0x42], Action::SelectNext),
        (vec![0x1bu8, 0x4f, 0x42], Action::SelectNext),
        (vec![0x0au8], Action::SelectNext),
        (vec![0x0eu8], Action::SelectNext),
        (vec![0x08u8], Action::Backspace),
        (vec![0x7fu8], Action::Backspace),
    ];
    proof {
        let m = r@.map_values(|e: (Vec<u8>, Action)| (e.0@, e.1));
        let d = default_bindings();
        assert(m.len() == d.len());
        assert forall|k: int| 0 <= k < d.len() implies m[k] == d[k] by {
            assert(r@[k].0@ =~= d[k].0);
        }
        assert(m =~= d);
    }
    r
}

/// Builds the action table from the user's bindings (keys already read as
/// control bytes) and the built-in ones, which apply only to keys that the
/// user did not bind. The first unknown action name, in order, is reported.
pub fn build_actions(bindings: &Vec<(Vec<u8>, String)>) -> (r: Result<ActionTable, ConfigError>)
    ensures
        r is Ok <==> forall|i: int| 0 <= i < bindings@.len() ==> (#[trigger] action_named(bindings@[i].1@)) is Some,
        r matches Ok(t) ==> forall|key: Seq<u8>| #[trigger] t.action_of(key) == bound_action(bindings_view(bindings@), key),
        r matches Err(e) ==> exists|i: int| 0 <= i < bindings@.len() && {
            &&& forall|j: int| 0 <= j < i ==> (#[trigger] action_named(bindings@[j].1@)) is Some
            &&& #[trigger] action_named(bindings@[i].1@) is None
            &&& e matches ConfigError::UnknownAction(name) && name@ == bindings@[i].1@
        },
{
    let mut entries: Vec<(Vec<u8>, Action)> = Vec::new();
    let mut i: usize = 0;
    while i < bindings.len()
        invariant
            i <= bindings@.len(),
            entries@.len() == i,
            forall|j: int| 0 <= j < i ==> (#[trigger] action_named(bindings@[j].1@)) is Some,
            forall|j: int| 0 <= j < i ==> (#[trigger] entries@[j]).0@ == bindings@[j].0@
                && Some(entries@[j].1) == action_named(bindings@[j].1@),
        decreases bindings@.len() - i,
    {
        match action_by_name(&bindings[i].1) {
            Some(a) => {
                entries.push((bindings[i].0.clone(), a));
            },
            None => {
                return Err(ConfigError::UnknownAction(bindings[i].1.clone()));
            },
        }
        i = i + 1;
    }
    let ghost user = entries@.map_values(|e: (Vec<u8>, Action)| (e.0@, e.1));
    let mut defaults = default_entries();
    entries.append(&mut defaults);
    let t = ActionTable { entries };
    proof {
        let ub = bindings_view(bindings@);
        assert(t@ == user + default_bindings());
        assert forall|key: Seq<u8>| #[trigger] t.action_of(key) == bound_action(ub, key) by {
            lemma_first_match_concat(user, default_bindings(), key);
            lemma_user_prefix(user, ub, key);
        }
    }
    Ok(t)
}

proof fn lemma_user_prefix(user: Seq<(Seq<u8>, Action)>, ub: Seq<(Seq<u8>, Seq<char>)>, key: Seq<u8>)
    requires
        user.len() == ub.len(),
        forall|j: int| 0 <= j < user.len() ==> (#[trigger] user[j]).0 == ub[j].0 && Some(user[j].1) == action_named(ub[j].1),
    ensures
        bound_action(ub, key) == (match first_match(user, key) {
            Some(x) => Some(x),
            None => first_match(default_bindings(), key),
        }),
    decreases user.len(),
{
    if user.len() > 0 {
        assert(user[0].0 == ub[0].0);
        lemma_user_prefix(user.drop_first(), ub.drop_first(), key);
    }
}

} // verus!
