//! The culling keymap: each action's default keys and the user's overrides
//! from the `shortcuts` setting, merged so that no key is bound to two
//! actions.
//!
//! Keys are named as the frontend names them: a plain key is `event.key`
//! lower-cased (`" "` as `"space"`); with a modifier held, the name is
//! `ctrl+alt+shift+meta+` (only the modifiers held, in that order) and the
//! key named from `event.code`.

use vstd::prelude::*;

use crate::accel::{accelerator, accelerator_of};
use crate::text::{concat, contains_str, debug_str, shown, list_has, same_str, str_names};

verus! {

/// An action name or a key name, as a sequence of chars.
pub type Name = Seq<char>;

/// One binding in the abstract: the action and its keys, in stored order.
pub type BindingModel = (Name, Seq<Name>);

/// The char sequences of a list of strings.
pub open spec fn names(v: Seq<String>) -> Seq<Name> {
    v.map_values(|s: String| s@)
}

/// The default key of `open` (`File > Open Folder…`).
pub open spec fn open_default(macos: bool) -> Name {
    if macos { "meta+o"@ } else { "ctrl+o"@ }
}

/// The default key of `photolab` (`File > Open in DxO PhotoLab`).
pub open spec fn photolab_default(macos: bool) -> Name {
    if macos { "shift+meta+o"@ } else { "ctrl+shift+o"@ }
}

/// The default key of `undo` (`Edit > Undo`).
pub open spec fn undo_default(macos: bool) -> Name {
    if macos { "meta+z"@ } else { "ctrl+z"@ }
}

/// The default key of `redo` (`Edit > Redo`).
pub open spec fn redo_default(macos: bool) -> Name {
    if macos { "shift+meta+z"@ } else { "ctrl+shift+z"@ }
}

/// Every action in the order the shortcuts panel shows them, with its
/// default keys.
pub open spec fn default_bindings(macos: bool) -> Seq<BindingModel> {
    seq![
        ("previous"@, seq!["arrowup"@]),
        ("next"@, seq!["arrowdown"@]),
        ("burstPrevious"@, seq!["arrowleft"@]),
        ("burstNext"@, seq!["arrowright"@]),
        ("burstFramePrevious"@, seq!["alt+arrowup"@]),
        ("burstFrameNext"@, seq!["alt+arrowdown"@]),
        ("extendPrevious"@, seq!["shift+arrowup"@]),
        ("extendNext"@, seq!["shift+arrowdown"@]),
        ("open"@, seq![open_default(macos)]),
        ("photolab"@, seq![photolab_default(macos)]),
        ("undo"@, seq![undo_default(macos)]),
        ("redo"@, seq![redo_default(macos)]),
        ("focus"@, seq!["f"@]),
        ("zoom"@, seq!["z"@]),
        ("grayscale"@, seq!["g"@]),
        ("compare"@, seq!["v"@]),
        ("rate1"@, seq!["1"@]),
        ("rate2"@, seq!["2"@]),
        ("rate3"@, seq!["3"@]),
        ("rate4"@, seq!["4"@]),
        ("rate5"@, seq!["5"@]),
        ("reject"@, seq!["x"@]),
        ("rejectRest"@, seq!["shift+x"@]),
        ("pick"@, seq!["p"@]),
        ("unflag"@, seq!["u"@]),
        ("clear"@, seq!["0"@]),
        ("red"@, seq!["ctrl+alt+1"@]),
        ("orange"@, seq!["ctrl+alt+2"@]),
        ("yellow"@, seq!["ctrl+alt+3"@]),
        ("green"@, seq!["ctrl+alt+4"@]),
        ("blue"@, seq!["ctrl+alt+5"@]),
        ("pink"@, seq!["ctrl+alt+6"@]),
        ("purple"@, seq!["ctrl+alt+7"@]),
        ("clearlabel"@, seq!["ctrl+alt+0"@]),
        ("clearall"@, seq!["c"@]),
    ]
}

/// How many actions there are.
pub open spec fn action_count() -> nat {
    35
}

/// macOS combinations owned by the app's menu.
pub open spec fn macos_menu() -> Seq<Name> {
    seq![
        "meta+,"@, "meta+q"@, "meta+h"@, "alt+meta+h"@, "meta+w"@, "meta+m"@,
        "ctrl+meta+f"@, "meta+x"@, "meta+c"@, "meta+v"@, "meta+a"@,
    ]
}

/// macOS combinations owned by the OS.
pub open spec fn macos_system() -> Seq<Name> {
    seq![
        "meta+tab"@, "shift+meta+tab"@, "meta+space"@, "alt+meta+space"@,
        "ctrl+space"@, "meta+`"@, "shift+meta+`"@, "alt+meta+escape"@,
        "ctrl+meta+q"@, "shift+meta+q"@, "shift+meta+3"@, "shift+meta+4"@,
        "shift+meta+5"@, "alt+meta+d"@, "ctrl+meta+space"@, "ctrl+arrowleft"@,
        "ctrl+arrowright"@, "ctrl+arrowup"@, "ctrl+arrowdown"@,
    ]
}

/// Windows / Linux combinations owned by the app's menu.
pub open spec fn other_menu() -> Seq<Name> {
    seq!["ctrl+,"@, "ctrl+x"@, "ctrl+c"@, "ctrl+v"@, "ctrl+a"@, "ctrl+m"@, "alt+f4"@]
}

/// Windows / Linux combinations owned by the OS.
pub open spec fn other_system() -> Seq<Name> {
    seq!["alt+tab"@, "shift+alt+tab"@, "ctrl+escape"@, "ctrl+shift+escape"@]
}

/// Whether `needle` occurs in `hay`.
pub open spec fn has_infix(hay: Seq<char>, needle: Seq<char>) -> bool {
    exists|i: int|
        0 <= i && i + needle.len() <= hay.len() && #[trigger] hay.subrange(i, i + needle.len())
            == needle
}

/// Why `key` cannot be bound, on macOS or elsewhere, if it cannot: a menu
/// accelerator, a combination the system owns, or off macOS any `meta+`
/// name, since the shell owns the Windows / Super key.
pub open spec fn forbidden_reason(key: Name, macos: bool) -> Option<Name> {
    let (menu, system) = if macos {
        (macos_menu(), macos_system())
    } else {
        (other_menu(), other_system())
    };
    if menu.contains(key) {
        Some("is a menu accelerator"@)
    } else if system.contains(key) || (!macos && has_infix(key, "meta+"@)) {
        Some("is reserved by the system"@)
    } else {
        None
    }
}

/// The lone modifiers, which never name a key.
pub open spec fn modifier_only(key: Name) -> bool {
    key == "control"@ || key == "alt"@ || key == "shift"@ || key == "meta"@
}

/// Whether some binding other than one named `action` holds `key`.
pub open spec fn held_elsewhere(bindings: Seq<BindingModel>, action: Name, key: Name) -> bool {
    exists|j: int|
        0 <= j < bindings.len() && bindings[j].0 != action && #[trigger] bindings[j].1.contains(
            key,
        )
}

/// No key is bound to two actions with different names.
pub open spec fn binds_no_key_twice(bindings: Seq<BindingModel>) -> bool {
    forall|i: int, j: int, k: Name|
        0 <= i < bindings.len() && 0 <= j < bindings.len() && bindings[i].0 != bindings[j].0
            && #[trigger] bindings[i].1.contains(k) ==> !#[trigger] bindings[j].1.contains(k)
}

/// No bound key is one the platform forbids.
pub open spec fn binds_no_forbidden_key(bindings: Seq<BindingModel>, macos: bool) -> bool {
    forall|i: int, k: Name|
        0 <= i < bindings.len() && #[trigger] bindings[i].1.contains(k) ==> forbidden_reason(
            k,
            macos,
        ) is None
}

/// Every action has at least one key.
pub open spec fn every_action_has_a_key(bindings: Seq<BindingModel>) -> bool {
    forall|i: int| 0 <= i < bindings.len() ==> #[trigger] bindings[i].1.len() > 0
}

/// One action and the keys bound to it, as the `shortcuts` command returns.
#[derive(Debug, PartialEq, Eq)]
pub struct Binding {
    pub action: String,
    pub keys: Vec<String>,
}

impl View for Binding {
    type V = BindingModel;

    open spec fn view(&self) -> BindingModel {
        (self.action@, names(self.keys@))
    }
}

/// A copy of `keys`.
fn copy_keys(keys: &Vec<String>) -> (r: Vec<String>)
    ensures
        names(r@) == names(keys@),
{
    let mut r: Vec<String> = Vec::new();
    let mut i: usize = 0;
    while i < keys.len()
        invariant
            i <= keys@.len(),
            names(r@) == names(keys@).subrange(0, i as int),
        decreases keys@.len() - i,
    {
        let k = keys[i].clone();
        assert(k@ == keys@[i as int]@);
        let ghost before = r@;
        r.push(k);
        assert(names(r@) =~= names(before).push(k@));
        assert(names(r@) =~= names(keys@).subrange(0, i + 1));
        i = i + 1;
    }
    assert(names(keys@).subrange(0, keys@.len() as int) =~= names(keys@));
    r
}

impl Binding {
    /// A copy of this binding.
    pub fn copy(&self) -> (r: Binding)
        ensures
            r@ == self@,
    {
        Binding { action: self.action.clone(), keys: copy_keys(&self.keys) }
    }
}

/// The abstract bindings of a list of bindings.
pub open spec fn models(v: Seq<Binding>) -> Seq<BindingModel> {
    v.map_values(|b: Binding| b@)
}

/// A copy of a list of bindings.
fn copy_bindings(v: &Vec<Binding>) -> (r: Vec<Binding>)
    ensures
        models(r@) == models(v@),
{
    let mut r: Vec<Binding> = Vec::new();
    let mut i: usize = 0;
    while i < v.len()
        invariant
            i <= v@.len(),
            models(r@) == models(v@).subrange(0, i as int),
        decreases v@.len() - i,
    {
        let b = v[i].copy();
        let ghost before = r@;
        r.push(b);
        assert(models(r@) =~= models(before).push(b@));
        assert(models(r@) =~= models(v@).subrange(0, i + 1));
        i = i + 1;
    }
    assert(models(v@).subrange(0, v@.len() as int) =~= models(v@));
    r
}

/// A binding of `action` to the single key `key`.
fn single(action: &str, key: &str) -> (b: Binding)
    ensures
        b@ == (action@, seq![key@]),
{
    let b = Binding { action: action.to_string(), keys: vec![key.to_string()] };
    assert(names(b.keys@) =~= seq![key@]);
    b
}

} // verus!

verus! {

/// Why `key` cannot be bound on macOS (`macos`) or elsewhere, if it cannot.
pub fn forbidden(key: &str, macos: bool) -> (r: Option<&'static str>)
    ensures
        match r {
            Some(reason) => forbidden_reason(key@, macos) == Some(reason@),
            None => forbidden_reason(key@, macos) is None,
        },
{
    let (menu, system) = if macos {
        (
            vec![
                "meta+,", "meta+q", "meta+h", "alt+meta+h", "meta+w", "meta+m", "ctrl+meta+f",
                "meta+x", "meta+c", "meta+v", "meta+a",
            ],
            vec![
                "meta+tab", "shift+meta+tab", "meta+space", "alt+meta+space", "ctrl+space",
                "meta+`", "shift+meta+`", "alt+meta+escape", "ctrl+meta+q", "shift+meta+q",
                "shift+meta+3", "shift+meta+4", "shift+meta+5", "alt+meta+d", "ctrl+meta+space",
                "ctrl+arrowleft", "ctrl+arrowright", "ctrl+arrowup", "ctrl+arrowdown",
            ],
        )
    } else {
        (
            vec!["ctrl+,", "ctrl+x", "ctrl+c", "ctrl+v", "ctrl+a", "ctrl+m", "alt+f4"],
            vec!["alt+tab", "shift+alt+tab", "ctrl+escape", "ctrl+shift+escape"],
        )
    };
    assert(str_names(menu@) =~= (if macos { macos_menu() } else { other_menu() }));
    assert(str_names(system@) =~= (if macos { macos_system() } else { other_system() }));
    if list_has(&menu, key) {
        Some("is a menu accelerator")
    } else if list_has(&system, key) || (!macos && contains_str(key, "meta+")) {
        Some("is reserved by the system")
    } else {
        None
    }
}

/// Whether `keys` holds `key`.
fn holds(keys: &Vec<String>, key: &str) -> (r: bool)
    ensures
        r == names(keys@).contains(key@),
{
    let mut i: usize = 0;
    while i < keys.len()
        invariant
            i <= keys@.len(),
            forall|j: int| 0 <= j < i ==> names(keys@)[j] != key@,
        decreases keys@.len() - i,
    {
        if same_str(keys[i].as_str(), key) {
            assert(names(keys@)[i as int] == key@);
            return true;
        }
        i = i + 1;
    }
    false
}

/// The index of the first binding of `t` named `action`.
pub open spec fn position(t: Seq<BindingModel>, action: Name) -> Option<int>
    decreases t.len(),
{
    if t.len() == 0 {
        None
    } else {
        match position(t.drop_last(), action) {
            Some(i) => Some(i),
            None => if t.last().0 == action {
                Some(t.len() - 1)
            } else {
                None
            },
        }
    }
}

/// The index of the first binding of `t` not named `action` that holds
/// `key`.
pub open spec fn holder(t: Seq<BindingModel>, action: Name, key: Name) -> Option<int>
    decreases t.len(),
{
    if t.len() == 0 {
        None
    } else {
        match holder(t.drop_last(), action, key) {
            Some(i) => Some(i),
            None => if t.last().0 != action && t.last().1.contains(key) {
                Some(t.len() - 1)
            } else {
                None
            },
        }
    }
}

proof fn lemma_position(t: Seq<BindingModel>, action: Name)
    ensures
        match position(t, action) {
            Some(i) => 0 <= i < t.len() && t[i].0 == action && forall|j: int|
                0 <= j < i ==> t[j].0 != action,
            None => forall|j: int| 0 <= j < t.len() ==> t[j].0 != action,
        },
    decreases t.len(),
{
    if t.len() > 0 {
        let p = t.drop_last();
        lemma_position(p, action);
        assert forall|j: int| 0 <= j < t.len() - 1 implies p[j] == t[j] by {}
    }
}

proof fn lemma_holder(t: Seq<BindingModel>, action: Name, key: Name)
    ensures
        match holder(t, action, key) {
            Some(i) => 0 <= i < t.len() && t[i].0 != action && t[i].1.contains(key) && forall|
                j: int,
            | 0 <= j < i ==> !(t[j].0 != action && t[j].1.contains(key)),
            None => !held_elsewhere(t, action, key),
        },
    decreases t.len(),
{
    if t.len() > 0 {
        lemma_holder(t.drop_last(), action, key);
        let p = t.drop_last();
        assert forall|j: int| 0 <= j < t.len() - 1 implies p[j] == t[j] by {}
        if holder(p, action, key) is None {
            assert forall|j: int|
                0 <= j < t.len() - 1 implies !(t[j].0 != action && t[j].1.contains(key)) by {
                assert(p[j] == t[j]);
                if t[j].0 != action && t[j].1.contains(key) {
                    assert(p[j].1.contains(key));
                }
            }
            if holder(t, action, key) is None {
                assert forall|j: int|
                    0 <= j < t.len() && t[j].0 != action implies !#[trigger] t[j].1.contains(key) by {
                    if j < t.len() - 1 {
                        assert(p[j] == t[j]);
                    }
                }
            }
        }
    }
}

/// The message `index` fails with.
pub open spec fn unknown_action(action: Name) -> Seq<char> {
    "unknown action "@ + shown(action)
}

/// The message of a key bound to another action.
pub open spec fn bound_to(key: Name, other: Name) -> Seq<char> {
    shown(key) + " is bound to "@ + other
}

/// The resolved keymap, one entry per action in the order of
/// `default_bindings`, plus the stored overrides that were skipped for a key
/// conflict, kept so saving does not drop them.
#[derive(Debug, PartialEq, Eq)]
pub struct Keymap {
    bindings: Vec<Binding>,
    inactive: Vec<Binding>,
    macos: bool,
}

impl Keymap {
    /// The bindings, one per action in `default_bindings` order.
    pub closed spec fn table(&self) -> Seq<BindingModel> {
        models(self.bindings@)
    }

    /// The stored overrides skipped for a key conflict, at most one per
    /// action.
    pub closed spec fn stash(&self) -> Seq<BindingModel> {
        models(self.inactive@)
    }

    /// Whether the keymap follows the macOS rules.
    pub closed spec fn on_macos(&self) -> bool {
        self.macos
    }

    #[verifier::type_invariant]
    closed spec fn well_formed(&self) -> bool {
        &&& models(self.bindings@).len() == action_count()
        &&& forall|i: int|
            0 <= i < action_count() ==> #[trigger] models(self.bindings@)[i].0 == default_bindings(
                self.macos,
            )[i].0
    }

    /// The default keys on macOS (`macos`) or elsewhere.
    pub fn defaults(macos: bool) -> (r: Keymap)
        ensures
            r.table() == default_bindings(macos),
            r.stash() == Seq::<BindingModel>::empty(),
            r.on_macos() == macos,
    {
        let mut b: Vec<Binding> = Vec::new();
        b.push(single("previous", "arrowup"));
        b.push(single("next", "arrowdown"));
        b.push(single("burstPrevious", "arrowleft"));
        b.push(single("burstNext", "arrowright"));
        b.push(single("burstFramePrevious", "alt+arrowup"));
        b.push(single("burstFrameNext", "alt+arrowdown"));
        b.push(single("extendPrevious", "shift+arrowup"));
        b.push(single("extendNext", "shift+arrowdown"));
        b.push(single("open", if macos { "meta+o" } else { "ctrl+o" }));
        b.push(single("photolab", if macos { "shift+meta+o" } else { "ctrl+shift+o" }));
        b.push(single("undo", if macos { "meta+z" } else { "ctrl+z" }));
        b.push(single("redo", if macos { "shift+meta+z" } else { "ctrl+shift+z" }));
        b.push(single("focus", "f"));
        b.push(single("zoom", "z"));
        b.push(single("grayscale", "g"));
        b.push(single("compare", "v"));
        b.push(single("rate1", "1"));
        b.push(single("rate2", "2"));
        b.push(single("rate3", "3"));
        b.push(single("rate4", "4"));
        b.push(single("rate5", "5"));
        b.push(single("reject", "x"));
        b.push(single("rejectRest", "shift+x"));
        b.push(single("pick", "p"));
        b.push(single("unflag", "u"));
        b.push(single("clear", "0"));
        b.push(single("red", "ctrl+alt+1"));
        b.push(single("orange", "ctrl+alt+2"));
        b.push(single("yellow", "ctrl+alt+3"));
        b.push(single("green", "ctrl+alt+4"));
        b.push(single("blue", "ctrl+alt+5"));
        b.push(single("pink", "ctrl+alt+6"));
        b.push(single("purple", "ctrl+alt+7"));
        b.push(single("clearlabel", "ctrl+alt+0"));
        b.push(single("clearall", "c"));
        assert(models(b@) =~= default_bindings(macos));
        let inactive: Vec<Binding> = Vec::new();
        assert(models(inactive@) =~= Seq::<BindingModel>::empty());
        Keymap { bindings: b, inactive, macos }
    }

    /// The bindings in the order the shortcuts panel shows them.
    pub fn bindings(&self) -> (r: Vec<Binding>)
        ensures
            models(r@) == self.table(),
    {
        copy_bindings(&self.bindings)
    }

    /// The index of `action`'s binding.
    fn index(&self, action: &str) -> (r: Result<usize, String>)
        ensures
            match r {
                Ok(i) => position(self.table(), action@) == Some(i as int),
                Err(e) => position(self.table(), action@) is None && e@ == unknown_action(
                    action@,
                ),
            },
    {
        proof {
            use_type_invariant(self);
        }
        let mut i: usize = 0;
        while i < self.bindings.len()
            invariant
                i <= self.bindings@.len(),
                position(models(self.bindings@).take(i as int), action@) is None,
            decreases self.bindings@.len() - i,
        {
            let ghost t = models(self.bindings@);
            assert(t.take(i + 1).drop_last() =~= t.take(i as int));
            if same_str(self.bindings[i].action.as_str(), action) {
                assert(position(t.take(i + 1), action@) == Some(i as int));
                proof { lemma_prefix_position(t, action@, i + 1); }
                return Ok(i);
            }
            i = i + 1;
        }
        assert(models(self.bindings@).take(i as int) =~= models(self.bindings@));
        Err(concat("unknown action ", debug_str(action).as_str()))
    }
}

/// A `position` found in a prefix is the position in the whole.
proof fn lemma_prefix_position(t: Seq<BindingModel>, action: Name, n: int)
    requires
        0 <= n <= t.len(),
        position(t.take(n), action) is Some,
    ensures
        position(t, action) == position(t.take(n), action),
    decreases t.len() - n,
{
    if n < t.len() {
        assert(t.take(n + 1).drop_last() =~= t.take(n));
        lemma_prefix_position(t, action, n + 1);
    } else {
        assert(t.take(n) =~= t);
    }
}

} // verus!

verus! {

/// `s` without the entries named `action`.
pub open spec fn without(s: Seq<BindingModel>, action: Name) -> Seq<BindingModel> {
    s.filter(not_named(action))
}

/// The entries not named `action`.
pub open spec fn not_named(action: Name) -> spec_fn(BindingModel) -> bool {
    |e: BindingModel| e.0 != action
}

/// The index of the first occurrence of `key` in `keys`.
pub open spec fn first_index(keys: Seq<Name>, key: Name) -> int
    decreases keys.len(),
{
    if keys.len() == 0 {
        0
    } else if keys[0] == key {
        0
    } else {
        1 + first_index(keys.drop_first(), key)
    }
}

/// The first of `keys` that a binding not named `action` holds, with the
/// index of the first such binding.
pub open spec fn conflict(t: Seq<BindingModel>, action: Name, keys: Seq<Name>) -> Option<
    (Name, int),
>
    decreases keys.len(),
{
    if keys.len() == 0 {
        None
    } else {
        match holder(t, action, keys[0]) {
            Some(j) => Some((keys[0], j)),
            None => conflict(t, action, keys.drop_first()),
        }
    }
}

/// What `add` does: `Ok` with the index of the binding the key is appended
/// to, or the message it fails with.
pub open spec fn add_outcome(t: Seq<BindingModel>, macos: bool, action: Name, key: Name) -> Result<
    int,
    Seq<char>,
> {
    match position(t, action) {
        None => Err(unknown_action(action)),
        Some(i) => match forbidden_reason(key, macos) {
            Some(reason) => Err(shown(key) + " "@ + reason),
            None => match holder(t, action, key) {
                Some(j) => Err(bound_to(key, t[j].0)),
                None => if t[i].1.contains(key) {
                    Err(shown(key) + " is already bound to "@ + action)
                } else {
                    Ok(i)
                },
            },
        },
    }
}

/// What `remove` does: `Ok` with the index of the binding the key is
/// removed from, or the message it fails with.
pub open spec fn remove_outcome(t: Seq<BindingModel>, action: Name, key: Name) -> Result<
    int,
    Seq<char>,
> {
    match position(t, action) {
        None => Err(unknown_action(action)),
        Some(i) => if !t[i].1.contains(key) {
            Err(shown(key) + " is not bound to "@ + action)
        } else if t[i].1.len() == 1 {
            Err(shown(key) + " is the only key for "@ + action + "; use Reset"@)
        } else {
            Ok(i)
        },
    }
}

/// What `reset` does: `Ok` with the index of the binding whose default keys
/// come back, or the message it fails with.
pub open spec fn reset_outcome(t: Seq<BindingModel>, macos: bool, action: Name) -> Result<
    int,
    Seq<char>,
> {
    match position(t, action) {
        None => Err(unknown_action(action)),
        Some(i) => match conflict(t, action, default_bindings(macos)[i].1) {
            Some((key, j)) => Err(bound_to(key, t[j].0)),
            None => Ok(i),
        },
    }
}

/// Whether the binding named `name` has keys other than its default ones.
pub open spec fn overridden(t: Seq<BindingModel>, d: Seq<BindingModel>, name: Name) -> bool {
    exists|i: int| 0 <= i < t.len() && t[i].0 == name && #[trigger] t[i].1 != d[i].1
}

/// The bindings among the first `n` of `t` whose keys differ from `d`'s.
pub open spec fn changed(t: Seq<BindingModel>, d: Seq<BindingModel>, n: int) -> Seq<BindingModel>
    decreases n,
{
    if n <= 0 {
        Seq::empty()
    } else {
        changed(t, d, n - 1) + if t[n - 1].1 != d[n - 1].1 {
            seq![t[n - 1]]
        } else {
            Seq::empty()
        }
    }
}

/// The overrides stored under the `shortcuts` setting: the skipped ones not
/// superseded, then every action whose keys differ from the default.
pub open spec fn overrides_model(t: Seq<BindingModel>, stash: Seq<BindingModel>, macos: bool) -> Seq<
    BindingModel,
> {
    let d = default_bindings(macos);
    stash.filter(not_overridden(t, d)) + changed(t, d, t.len() as int)
}

/// The stashed entries whose action still has its default keys.
pub open spec fn not_overridden(t: Seq<BindingModel>, d: Seq<BindingModel>) -> spec_fn(
    BindingModel,
) -> bool {
    |e: BindingModel| !overridden(t, d, e.0)
}

/// Whether two key lists are the same.
fn same_keys(a: &Vec<String>, b: &Vec<String>) -> (r: bool)
    ensures
        r == (names(a@) == names(b@)),
{
    if a.len() != b.len() {
        return false;
    }
    let mut i: usize = 0;
    while i < a.len()
        invariant
            a@.len() == b@.len(),
            i <= a@.len(),
            forall|j: int| 0 <= j < i ==> names(a@)[j] == names(b@)[j],
        decreases a@.len() - i,
    {
        if !same_str(a[i].as_str(), b[i].as_str()) {
            assert(names(a@)[i as int] != names(b@)[i as int]);
            return false;
        }
        i = i + 1;
    }
    assert(names(a@) =~= names(b@));
    true
}

} // verus!

verus! {

/// The index of the first binding of `b` not named `action` that holds `key`.
fn find_holder(b: &Vec<Binding>, action: &str, key: &str) -> (r: Option<usize>)
    ensures
        match r {
            Some(j) => holder(models(b@), action@, key@) == Some(j as int),
            None => holder(models(b@), action@, key@) is None,
        },
{
    let mut i: usize = 0;
    while i < b.len()
        invariant
            i <= b@.len(),
            holder(models(b@).take(i as int), action@, key@) is None,
        decreases b@.len() - i,
    {
        let ghost t = models(b@);
        assert(t.take(i + 1).drop_last() =~= t.take(i as int));
        if !same_str(b[i].action.as_str(), action) && holds(&b[i].keys, key) {
            assert(holder(t.take(i + 1), action@, key@) == Some(i as int));
            proof { lemma_prefix_holder(t, action@, key@, i + 1); }
            return Some(i);
        }
        i = i + 1;
    }
    assert(models(b@).take(i as int) =~= models(b@));
    None
}

/// A `holder` found in a prefix is the holder in the whole.
proof fn lemma_prefix_holder(t: Seq<BindingModel>, action: Name, key: Name, n: int)
    requires
        0 <= n <= t.len(),
        holder(t.take(n), action, key) is Some,
    ensures
        holder(t, action, key) == holder(t.take(n), action, key),
    decreases t.len() - n,
{
    if n < t.len() {
        assert(t.take(n + 1).drop_last() =~= t.take(n));
        lemma_prefix_holder(t, action, key, n + 1);
    } else {
        assert(t.take(n) =~= t);
    }
}

/// `v` without the entries named `action`.
fn drop_named(v: &Vec<Binding>, action: &str) -> (r: Vec<Binding>)
    ensures
        models(r@) == without(models(v@), action@),
{
    let mut r: Vec<Binding> = Vec::new();
    let mut i: usize = 0;
    while i < v.len()
        invariant
            i <= v@.len(),
            models(r@) == without(models(v@).take(i as int), action@),
        decreases v@.len() - i,
    {
        let ghost t = models(v@);
        assert(t.take(i + 1) =~= t.take(i as int).push(t[i as int]));
        proof {
            t.take(i as int).lemma_filter_push(t[i as int], not_named(action@));
        }
        if !same_str(v[i].action.as_str(), action) {
            let e = v[i].copy();
            let ghost before = r@;
            r.push(e);
            assert(models(r@) =~= models(before).push(e@));
        }
        i = i + 1;
    }
    assert(models(v@).take(i as int) =~= models(v@));
    r
}

impl Keymap {
    /// Why `key` cannot go to `action`: an unknown action, a forbidden key,
    /// or a key another action holds. The index of `action` otherwise.
    fn check_bindable(&self, action: &str, key: &str) -> (r: Result<usize, String>)
        ensures
            match r {
                Ok(i) => position(self.table(), action@) == Some(i as int) && forbidden_reason(
                    key@,
                    self.on_macos(),
                ) is None && holder(self.table(), action@, key@) is None,
                Err(e) => {
                    ||| position(self.table(), action@) is None && e@ == unknown_action(action@)
                    ||| position(self.table(), action@) is Some && match forbidden_reason(
                        key@,
                        self.on_macos(),
                    ) {
                        Some(reason) => e@ == shown(key@) + " "@ + reason,
                        None => match holder(self.table(), action@, key@) {
                            Some(j) => e@ == bound_to(key@, self.table()[j].0),
                            None => false,
                        },
                    }
                },
            },
    {
        let i = self.index(action)?;
        proof {
            lemma_holder(self.table(), action@, key@);
        }
        if let Some(reason) = forbidden(key, self.macos) {
            let msg = concat(debug_str(key).as_str(), " ");
            return Err(concat(msg.as_str(), reason));
        }
        if let Some(j) = find_holder(&self.bindings, action, key) {
            let msg = concat(debug_str(key).as_str(), " is bound to ");
            return Err(concat(msg.as_str(), self.bindings[j].action.as_str()));
        }
        Ok(i)
    }

    /// Add `key` to `action`'s keys, or explain why it cannot be: a key
    /// bound to another action is refused rather than moved, and a key the
    /// action holds is an error. Editing an action drops its skipped
    /// override.
    pub fn add(&mut self, action: &str, key: &str) -> (r: Result<(), String>)
        ensures
            final(self).on_macos() == old(self).on_macos(),
            match add_outcome(old(self).table(), old(self).on_macos(), action@, key@) {
                Ok(i) => r is Ok && final(self).table() == old(self).table().update(
                    i,
                    (old(self).table()[i].0, old(self).table()[i].1.push(key@)),
                ) && final(self).stash() == without(old(self).stash(), action@),
                Err(m) => r matches Err(e) && e@ == m && final(self).table() == old(
                    self,
                ).table() && final(self).stash() == old(self).stash(),
            },
    {
        proof {
            use_type_invariant(&*self);
        }
        let i = self.check_bindable(action, key)?;
        proof {
            lemma_position(self.table(), action@);
        }
        if holds(&self.bindings[i].keys, key) {
            let msg = concat(debug_str(key).as_str(), " is already bound to ");
            return Err(concat(msg.as_str(), action));
        }
        let ghost t = self.table();
        let mut keys = copy_keys(&self.bindings[i].keys);
        keys.push(key.to_string());
        assert(names(keys@) =~= t[i as int].1.push(key@));
        let binding = Binding { action: self.bindings[i].action.clone(), keys };
        let mut bindings = copy_bindings(&self.bindings);
        bindings.set(i, binding);
        assert(models(bindings@) =~= t.update(i as int, (t[i as int].0, t[i as int].1.push(key@))));
        let inactive = drop_named(&self.inactive, action);
        *self = Keymap { bindings, inactive, macos: self.macos };
        Ok(())
    }
}

} // verus!

verus! {

/// The index of the first `key` in `keys`, if any.
fn find_key(keys: &Vec<String>, key: &str) -> (r: Option<usize>)
    ensures
        match r {
            Some(k) => names(keys@).contains(key@) && k as int == first_index(names(keys@), key@)
                && k < keys@.len(),
            None => !names(keys@).contains(key@),
        },
{
    let mut i: usize = 0;
    while i < keys.len()
        invariant
            i <= keys@.len(),
            forall|j: int| 0 <= j < i ==> names(keys@)[j] != key@,
        decreases keys@.len() - i,
    {
        if same_str(keys[i].as_str(), key) {
            proof {
                lemma_first_index(names(keys@), key@, i as int);
                assert(names(keys@)[i as int] == key@);
            }
            return Some(i);
        }
        i = i + 1;
    }
    None
}

proof fn lemma_first_index(keys: Seq<Name>, key: Name, i: int)
    requires
        0 <= i < keys.len(),
        keys[i] == key,
        forall|j: int| 0 <= j < i ==> keys[j] != key,
    ensures
        first_index(keys, key) == i,
    decreases i,
{
    if i > 0 {
        let rest = keys.drop_first();
        assert forall|j: int| 0 <= j < i - 1 implies rest[j] != key by {
            assert(rest[j] == keys[j + 1]);
        }
        lemma_first_index(rest, key, i - 1);
    }
}

proof fn lemma_conflict(t: Seq<BindingModel>, action: Name, keys: Seq<Name>)
    ensures
        match conflict(t, action, keys) {
            Some((key, j)) => holder(t, action, key) == Some(j) && keys.contains(key),
            None => forall|k: int| 0 <= k < keys.len() ==> holder(t, action, keys[k]) is None,
        },
    decreases keys.len(),
{
    if keys.len() > 0 {
        let rest = keys.drop_first();
        lemma_conflict(t, action, rest);
        assert forall|k: int| 0 <= k < rest.len() implies rest[k] == keys[k + 1] by {}
        if let Some((key, j)) = conflict(t, action, keys) {
            if holder(t, action, keys[0]) is None {
                let k = choose|k: int| 0 <= k < rest.len() && rest[k] == key;
                assert(keys[k + 1] == key);
            } else {
                assert(keys[0] == key);
            }
        } else {
            assert forall|k: int| 0 <= k < keys.len() implies holder(t, action, keys[k]) is None by {
                if k > 0 {
                    assert(keys[k] == rest[k - 1]);
                }
            }
        }
    }
}

/// The first conflicting key of `keys` over `b`, as `conflict` names it.
fn find_conflict(b: &Vec<Binding>, action: &str, keys: &Vec<String>) -> (r: Option<(usize, usize)>)
    ensures
        match r {
            Some((k, j)) => k < keys@.len() && conflict(models(b@), action@, names(keys@)) == Some(
                (names(keys@)[k as int], j as int),
            ),
            None => conflict(models(b@), action@, names(keys@)) is None,
        },
{
    let ghost t = models(b@);
    let ghost all = names(keys@);
    let mut k: usize = 0;
    assert(all.skip(0) =~= all);
    while k < keys.len()
        invariant
            k <= keys@.len(),
            all == names(keys@),
            t == models(b@),
            conflict(t, action@, all) == conflict(t, action@, all.skip(k as int)),
        decreases keys@.len() - k,
    {
        assert(all.skip(k as int)[0] == all[k as int]);
        assert(all.skip(k as int).drop_first() =~= all.skip(k + 1));
        if let Some(j) = find_holder(b, action, keys[k].as_str()) {
            return Some((k, j));
        }
        k = k + 1;
    }
    assert(all.skip(k as int) =~= Seq::<Name>::empty());
    None
}

impl Keymap {
    /// Remove `key` from `action`'s keys. The last key cannot be removed, as
    /// an empty list does not load back. Editing an action drops its skipped
    /// override.
    pub fn remove(&mut self, action: &str, key: &str) -> (r: Result<(), String>)
        ensures
            final(self).on_macos() == old(self).on_macos(),
            match remove_outcome(old(self).table(), action@, key@) {
                Ok(i) => r is Ok && final(self).table() == old(self).table().update(
                    i,
                    (
                        old(self).table()[i].0,
                        old(self).table()[i].1.remove(
                            first_index(old(self).table()[i].1, key@),
                        ),
                    ),
                ) && final(self).stash() == without(old(self).stash(), action@),
                Err(m) => r matches Err(e) && e@ == m && final(self).table() == old(
                    self,
                ).table() && final(self).stash() == old(self).stash(),
            },
    {
        proof {
            use_type_invariant(&*self);
        }
        let i = self.index(action)?;
        proof {
            lemma_position(self.table(), action@);
        }
        let at = match find_key(&self.bindings[i].keys, key) {
            Some(at) => at,
            None => {
                let msg = concat(debug_str(key).as_str(), " is not bound to ");
                return Err(concat(msg.as_str(), action));
            },
        };
        if self.bindings[i].keys.len() == 1 {
            let msg = concat(debug_str(key).as_str(), " is the only key for ");
            let msg = concat(msg.as_str(), action);
            return Err(concat(msg.as_str(), "; use Reset"));
        }
        let ghost t = self.table();
        let mut keys = copy_keys(&self.bindings[i].keys);
        let ghost before = keys@;
        keys.remove(at);
        assert(names(keys@) =~= t[i as int].1.remove(at as int)) by {
            assert(keys@ =~= before.remove(at as int));
        }
        let binding = Binding { action: self.bindings[i].action.clone(), keys };
        let mut bindings = copy_bindings(&self.bindings);
        bindings.set(i, binding);
        assert(models(bindings@) =~= t.update(
            i as int,
            (t[i as int].0, t[i as int].1.remove(at as int)),
        ));
        let inactive = drop_named(&self.inactive, action);
        *self = Keymap { bindings, inactive, macos: self.macos };
        Ok(())
    }

    /// Restore `action`'s default keys, or fail if one of them has since
    /// been bound to another action. Resetting an action drops its skipped
    /// override.
    pub fn reset(&mut self, action: &str) -> (r: Result<(), String>)
        ensures
            final(self).on_macos() == old(self).on_macos(),
            match reset_outcome(old(self).table(), old(self).on_macos(), action@) {
                Ok(i) => r is Ok && final(self).table() == old(self).table().update(
                    i,
                    (old(self).table()[i].0, default_bindings(old(self).on_macos())[i].1),
                ) && final(self).stash() == without(old(self).stash(), action@),
                Err(m) => r matches Err(e) && e@ == m && final(self).table() == old(
                    self,
                ).table() && final(self).stash() == old(self).stash(),
            },
    {
        proof {
            use_type_invariant(&*self);
        }
        let i = self.index(action)?;
        proof {
            lemma_position(self.table(), action@);
        }
        let defaults = Keymap::defaults(self.macos);
        assert(models(defaults.bindings@).len() == action_count());
        let keys = copy_keys(&defaults.bindings[i].keys);
        if let Some((k, j)) = find_conflict(&self.bindings, action, &keys) {
            proof {
                lemma_conflict(self.table(), action@, names(keys@));
                lemma_holder(self.table(), action@, names(keys@)[k as int]);
            }
            let msg = concat(debug_str(keys[k].as_str()).as_str(), " is bound to ");
            return Err(concat(msg.as_str(), self.bindings[j].action.as_str()));
        }
        let ghost t = self.table();
        let binding = Binding { action: self.bindings[i].action.clone(), keys };
        let mut bindings = copy_bindings(&self.bindings);
        bindings.set(i, binding);
        assert(models(bindings@) =~= t.update(
            i as int,
            (t[i as int].0, default_bindings(self.macos)[i as int].1),
        ));
        let inactive = drop_named(&self.inactive, action);
        *self = Keymap { bindings, inactive, macos: self.macos };
        Ok(())
    }

    /// Restore every action's default keys, dropping every skipped
    /// override.
    pub fn reset_all(&mut self)
        ensures
            final(self).table() == default_bindings(old(self).on_macos()),
            final(self).stash() == Seq::<BindingModel>::empty(),
            final(self).on_macos() == old(self).on_macos(),
    {
        *self = Keymap::defaults(self.macos);
    }
}

} // verus!

verus! {

/// Whether the binding named `name` in `t` has keys other than `d`'s.
fn is_overridden(t: &Vec<Binding>, d: &Vec<Binding>, name: &str) -> (r: bool)
    requires
        t@.len() <= d@.len(),
    ensures
        r == overridden(models(t@), models(d@), name@),
{
    let ghost mt = models(t@);
    let ghost md = models(d@);
    let mut i: usize = 0;
    while i < t.len()
        invariant
            i <= t@.len(),
            t@.len() <= d@.len(),
            mt == models(t@),
            md == models(d@),
            forall|j: int| 0 <= j < i ==> !(mt[j].0 == name@ && mt[j].1 != md[j].1),
        decreases t@.len() - i,
    {
        if same_str(t[i].action.as_str(), name) && !same_keys(&t[i].keys, &d[i].keys) {
            assert(mt[i as int].0 == name@ && mt[i as int].1 != md[i as int].1);
            return true;
        }
        i = i + 1;
    }
    assert forall|j: int| 0 <= j < mt.len() && mt[j].0 == name@ implies !(#[trigger] mt[j].1
        != md[j].1) by {}
    false
}

impl Keymap {
    /// The overrides to store under the `shortcuts` setting: the skipped
    /// ones whose action still has its default keys, then every action whose
    /// keys differ from the default. Names are unique, so the list reads as
    /// the map the setting stores.
    pub fn overrides(&self) -> (r: Vec<Binding>)
        ensures
            models(r@) == overrides_model(self.table(), self.stash(), self.on_macos()),
    {
        proof {
            use_type_invariant(self);
        }
        let defaults = Keymap::defaults(self.macos);
        assert(models(defaults.bindings@).len() == action_count());
        let ghost t = self.table();
        let ghost d = default_bindings(self.macos);
        let ghost st = self.stash();
        let mut out: Vec<Binding> = Vec::new();
        let mut k: usize = 0;
        while k < self.inactive.len()
            invariant
                k <= self.inactive@.len(),
                t == models(self.bindings@),
                st == models(self.inactive@),
                d == models(defaults.bindings@),
                t.len() == d.len(),
                models(out@) == st.take(k as int).filter(not_overridden(t, d)),
            decreases self.inactive@.len() - k,
        {
            assert(st.take(k + 1) =~= st.take(k as int).push(st[k as int]));
            proof {
                st.take(k as int).lemma_filter_push(st[k as int], not_overridden(t, d));
            }
            if !is_overridden(&self.bindings, &defaults.bindings, self.inactive[k].action.as_str()) {
                let e = self.inactive[k].copy();
                let ghost before = out@;
                out.push(e);
                assert(models(out@) =~= models(before).push(e@));
            }
            k = k + 1;
        }
        assert(st.take(k as int) =~= st);
        let ghost first = models(out@);
        let mut i: usize = 0;
        while i < self.bindings.len()
            invariant
                i <= self.bindings@.len(),
                t == models(self.bindings@),
                d == models(defaults.bindings@),
                t.len() == d.len(),
                models(out@) == first + changed(t, d, i as int),
            decreases self.bindings@.len() - i,
        {
            if !same_keys(&self.bindings[i].keys, &defaults.bindings[i].keys) {
                let e = self.bindings[i].copy();
                let ghost before = out@;
                out.push(e);
                assert(models(out@) =~= models(before).push(e@));
                assert(models(out@) =~= first + changed(t, d, i + 1));
            } else {
                assert(changed(t, d, i + 1) =~= changed(t, d, i as int));
            }
            i = i + 1;
        }
        out
    }
}

} // verus!

verus! {

/// A stored override's value as the logic reads it: a list whose items are
/// strings (`Some`) or anything else (`None`), or something other than a
/// list.
pub enum StoredKeys {
    List(Vec<Option<String>>),
    Other,
}

/// The stored `shortcuts` setting as the logic reads it: an object mapping
/// action names to their stored keys, or something other than an object.
pub enum StoredShortcuts {
    Object(Vec<(String, StoredKeys)>),
    Other,
}

/// The items of a stored list.
pub open spec fn items(v: Seq<Option<String>>) -> Seq<Option<Name>> {
    v.map_values(|o: Option<String>| match o {
        Some(s) => Some(s@),
        None => None,
    })
}

impl View for StoredKeys {
    type V = Option<Seq<Option<Name>>>;

    open spec fn view(&self) -> Option<Seq<Option<Name>>> {
        match self {
            StoredKeys::List(v) => Some(items(v@)),
            StoredKeys::Other => None,
        }
    }
}

/// The entries of a stored object.
pub open spec fn stored_entries(v: Seq<(String, StoredKeys)>) -> Seq<(Name, Option<Seq<Option<Name>>>)> {
    v.map_values(|e: (String, StoredKeys)| (e.0@, e.1@))
}

impl View for StoredShortcuts {
    type V = Option<Seq<(Name, Option<Seq<Option<Name>>>)>>;

    open spec fn view(&self) -> Option<Seq<(Name, Option<Seq<Option<Name>>>)>> {
        match self {
            StoredShortcuts::Object(v) => Some(stored_entries(v@)),
            StoredShortcuts::Other => None,
        }
    }
}

/// The keys that are not lone modifiers.
pub open spec fn names_a_key() -> spec_fn(Name) -> bool {
    |k: Name| !modifier_only(k)
}

/// The keys a stored value holds: a non-empty list of non-empty strings,
/// with the lone modifiers dropped, and `None` when that leaves nothing or
/// the value has another shape.
pub open spec fn parsed_keys(v: Option<Seq<Option<Name>>>) -> Option<Seq<Name>> {
    match v {
        None => None,
        Some(list) => if list.len() == 0 || exists|i: int|
            0 <= i < list.len() && (#[trigger] list[i] is None || list[i]->0.len() == 0) {
            None
        } else {
            let keys = list.map_values(|o: Option<Name>| o->0).filter(names_a_key());
            if keys.len() == 0 {
                None
            } else {
                Some(keys)
            }
        },
    }
}

/// The value stored for `name`: the first entry with that name.
pub open spec fn lookup<V>(entries: Seq<(Name, V)>, name: Name) -> Option<V>
    decreases entries.len(),
{
    if entries.len() == 0 {
        None
    } else {
        match lookup(entries.drop_last(), name) {
            Some(v) => Some(v),
            None => if entries.last().0 == name {
                Some(entries.last().1)
            } else {
                None
            },
        }
    }
}

/// The keys stored for the action at `i` that may be applied: parsed, and
/// none of them forbidden.
pub open spec fn candidate(entries: Seq<(Name, Option<Seq<Option<Name>>>)>, macos: bool, i: int) -> Option<
    Seq<Name>,
> {
    match lookup(entries, default_bindings(macos)[i].0) {
        None => None,
        Some(v) => match parsed_keys(v) {
            None => None,
            Some(keys) => if exists|k: Name|
                keys.contains(k) && #[trigger] forbidden_reason(k, macos) is Some {
                None
            } else {
                Some(keys)
            },
        },
    }
}

/// The applicable overrides of the first `n` actions, in action order.
pub open spec fn candidates(entries: Seq<(Name, Option<Seq<Option<Name>>>)>, macos: bool, n: int) -> Seq<
    (int, Seq<Name>),
>
    decreases n,
{
    if n <= 0 {
        Seq::empty()
    } else {
        candidates(entries, macos, n - 1) + match candidate(entries, macos, n - 1) {
            Some(keys) => seq![(n - 1, keys)],
            None => Seq::empty(),
        }
    }
}

/// Whether every one of `keys` is free of the bindings not named like the
/// one at `i`.
pub open spec fn free(b: Seq<BindingModel>, i: int, keys: Seq<Name>) -> bool {
    free_of(b, b[i].0, keys)
}

/// Whether no binding not named `action` holds any of `keys`.
pub open spec fn free_of(b: Seq<BindingModel>, action: Name, keys: Seq<Name>) -> bool {
    forall|k: Name| keys.contains(k) ==> !held_elsewhere(b, action, k)
}

/// One pass over the pending overrides in order: each one whose keys are
/// free is applied at once, the rest are kept.
pub open spec fn pass(b: Seq<BindingModel>, pending: Seq<(int, Seq<Name>)>) -> (
    Seq<BindingModel>,
    Seq<(int, Seq<Name>)>,
)
    decreases pending.len(),
{
    if pending.len() == 0 {
        (b, pending)
    } else {
        let (i, keys) = pending[0];
        if free(b, i, keys) {
            pass(b.update(i, (b[i].0, keys)), pending.drop_first())
        } else {
            let (b2, rest) = pass(b, pending.drop_first());
            (b2, seq![(i, keys)] + rest)
        }
    }
}

/// Passes until one applies nothing: an override may need a key that a
/// later one releases.
pub open spec fn settle(b: Seq<BindingModel>, pending: Seq<(int, Seq<Name>)>) -> (
    Seq<BindingModel>,
    Seq<(int, Seq<Name>)>,
)
    decreases pending.len(),
{
    let (b2, rest) = pass(b, pending);
    if rest.len() < pending.len() {
        settle(b2, rest)
    } else {
        (b2, rest)
    }
}

/// The overrides left over, as stashed: the action and its stored keys.
pub open spec fn stashed(b: Seq<BindingModel>, rest: Seq<(int, Seq<Name>)>) -> Seq<BindingModel> {
    rest.map_values(|p: (int, Seq<Name>)| (b[p.0].0, p.1))
}

/// What `from_overrides` resolves: the bindings and the skipped overrides.
pub open spec fn resolved(stored: Option<Option<Seq<(Name, Option<Seq<Option<Name>>>)>>>, macos: bool) -> (
    Seq<BindingModel>,
    Seq<BindingModel>,
) {
    match stored {
        Some(Some(entries)) => {
            let (b, rest) = settle(
                default_bindings(macos),
                candidates(entries, macos, action_count() as int),
            );
            (b, stashed(b, rest))
        },
        _ => (default_bindings(macos), Seq::empty()),
    }
}

} // verus!

verus! {

/// The pending overrides as the spec reads them.
pub open spec fn pend(p: Seq<(usize, Vec<String>)>) -> Seq<(int, Seq<Name>)> {
    p.map_values(|x: (usize, Vec<String>)| (x.0 as int, names(x.1@)))
}

/// Whether `key` is a lone modifier.
fn is_modifier_only(key: &str) -> (r: bool)
    ensures
        r == modifier_only(key@),
{
    let list = vec!["control", "alt", "shift", "meta"];
    assert(str_names(list@) =~= seq!["control"@, "alt"@, "shift"@, "meta"@]);
    let r = list_has(&list, key);
    proof {
        if modifier_only(key@) {
            let l = str_names(list@);
            if key@ == "control"@ {
                assert(l[0] == key@);
            } else if key@ == "alt"@ {
                assert(l[1] == key@);
            } else if key@ == "shift"@ {
                assert(l[2] == key@);
            } else {
                assert(l[3] == key@);
            }
        }
    }
    r
}

/// The keys a stored value holds, as `parsed_keys` describes them.
fn parse_keys(value: &StoredKeys) -> (r: Option<Vec<String>>)
    ensures
        match r {
            Some(keys) => parsed_keys(value@) == Some(names(keys@)),
            None => parsed_keys(value@) is None,
        },
{
    match value {
        StoredKeys::List(list) => parse_list(list),
        StoredKeys::Other => None,
    }
}

/// The keys a stored list holds, as `parsed_keys` describes them.
fn parse_list(list: &Vec<Option<String>>) -> (r: Option<Vec<String>>)
    ensures
        match r {
            Some(keys) => parsed_keys(Some(items(list@))) == Some(names(keys@)),
            None => parsed_keys(Some(items(list@))) is None,
        },
{
    if list.len() == 0 {
        return None;
    }
    let ghost it = items(list@);
    let ghost unwrapped = it.map_values(|o: Option<Name>| o->0);
    let mut keys: Vec<String> = Vec::new();
    let mut i: usize = 0;
    while i < list.len()
        invariant
            i <= list@.len(),
            it == items(list@),
            unwrapped == it.map_values(|o: Option<Name>| o->0),
            forall|j: int| 0 <= j < i ==> !(it[j] is None || it[j]->0.len() == 0),
            names(keys@) == unwrapped.take(i as int).filter(names_a_key()),
        decreases list@.len() - i,
    {
        match &list[i] {
            Some(k) => {
                if k.as_str().unicode_len() == 0 {
                    assert(it[i as int]->0.len() == 0);
                    return None;
                }
                assert(unwrapped.take(i + 1) =~= unwrapped.take(i as int).push(k@));
                proof {
                    unwrapped.take(i as int).lemma_filter_push(k@, names_a_key());
                }
                if !is_modifier_only(k.as_str()) {
                    let ghost before = keys@;
                    keys.push(k.clone());
                    assert(names(keys@) =~= names(before).push(k@));
                }
            },
            None => {
                assert(it[i as int] is None);
                return None;
            },
        }
        i = i + 1;
    }
    assert(unwrapped.take(i as int) =~= unwrapped);
    if keys.len() == 0 {
        return None;
    }
    Some(keys)
}

/// The value stored for `name`, as `lookup` names it.
fn find_entry<'a>(list: &'a Vec<(String, StoredKeys)>, name: &str) -> (r: Option<&'a StoredKeys>)
    ensures
        match r {
            Some(v) => lookup(stored_entries(list@), name@) == Some(v@),
            None => lookup(stored_entries(list@), name@) is None,
        },
{
    let ghost e = stored_entries(list@);
    let mut i: usize = 0;
    while i < list.len()
        invariant
            i <= list@.len(),
            e == stored_entries(list@),
            lookup(e.take(i as int), name@) is None,
        decreases list@.len() - i,
    {
        assert(e.take(i + 1).drop_last() =~= e.take(i as int));
        if same_str(list[i].0.as_str(), name) {
            assert(lookup(e.take(i + 1), name@) == Some(e[i as int].1));
            proof { lemma_prefix_lookup(e, name@, i + 1); }
            return Some(&list[i].1);
        }
        i = i + 1;
    }
    assert(e.take(i as int) =~= e);
    None
}

/// A `lookup` found in a prefix is the lookup in the whole.
proof fn lemma_prefix_lookup<V>(e: Seq<(Name, V)>, name: Name, n: int)
    requires
        0 <= n <= e.len(),
        lookup(e.take(n), name) is Some,
    ensures
        lookup(e, name) == lookup(e.take(n), name),
    decreases e.len() - n,
{
    if n < e.len() {
        assert(e.take(n + 1).drop_last() =~= e.take(n));
        lemma_prefix_lookup(e, name, n + 1);
    } else {
        assert(e.take(n) =~= e);
    }
}

/// Whether one of `keys` is forbidden.
fn any_forbidden(keys: &Vec<String>, macos: bool) -> (r: bool)
    ensures
        r == exists|k: Name| names(keys@).contains(k) && #[trigger] forbidden_reason(k, macos) is Some,
{
    let mut i: usize = 0;
    while i < keys.len()
        invariant
            i <= keys@.len(),
            forall|j: int| 0 <= j < i ==> forbidden_reason(#[trigger] names(keys@)[j], macos) is None,
        decreases keys@.len() - i,
    {
        if forbidden(keys[i].as_str(), macos).is_some() {
            assert(names(keys@).contains(names(keys@)[i as int]));
            return true;
        }
        i = i + 1;
    }
    false
}

} // verus!

verus! {

/// Whether every one of `keys` is free for the binding at `i`.
fn is_free(b: &Vec<Binding>, i: usize, keys: &Vec<String>) -> (r: bool)
    requires
        i < b@.len(),
    ensures
        r == free(models(b@), i as int, names(keys@)),
{
    let ghost t = models(b@);
    let mut k: usize = 0;
    while k < keys.len()
        invariant
            k <= keys@.len(),
            i < b@.len(),
            t == models(b@),
            forall|j: int| 0 <= j < k ==> !held_elsewhere(t, t[i as int].0, #[trigger] names(keys@)[j]),
        decreases keys@.len() - k,
    {
        let found = find_holder(b, b[i].action.as_str(), keys[k].as_str());
        proof {
            lemma_holder(t, t[i as int].0, names(keys@)[k as int]);
        }
        if found.is_some() {
            assert(names(keys@).contains(names(keys@)[k as int]));
            return false;
        }
        k = k + 1;
    }
    assert forall|key: Name| names(keys@).contains(key) implies !held_elsewhere(
        t,
        t[i as int].0,
        key,
    ) by {
        let j = choose|j: int| 0 <= j < names(keys@).len() && names(keys@)[j] == key;
        assert(!held_elsewhere(t, t[i as int].0, names(keys@)[j]));
    }
    true
}

/// Every pending index names a binding.
pub open spec fn in_range(p: Seq<(int, Seq<Name>)>, n: int) -> bool {
    forall|k: int| 0 <= k < p.len() ==> 0 <= #[trigger] p[k].0 < n
}

pub(crate) proof fn lemma_pass_shape(b: Seq<BindingModel>, p: Seq<(int, Seq<Name>)>)
    requires
        in_range(p, b.len() as int),
    ensures
        pass(b, p).0.len() == b.len(),
        pass(b, p).1.len() <= p.len(),
        in_range(pass(b, p).1, b.len() as int),
        forall|i: int| 0 <= i < b.len() ==> #[trigger] pass(b, p).0[i].0 == b[i].0,
        pass(b, p).1.len() == p.len() ==> pass(b, p).0 == b && pass(b, p).1 == p && forall|k: int|
            0 <= k < p.len() ==> !free(b, #[trigger] p[k].0, p[k].1),
    decreases p.len(),
{
    if p.len() > 0 {
        let (i, keys) = p[0];
        let rest = p.drop_first();
        assert forall|k: int| 0 <= k < rest.len() implies 0 <= #[trigger] rest[k].0 < b.len() by {
            assert(rest[k] == p[k + 1]);
        }
        if free(b, i, keys) {
            let b1 = b.update(i, (b[i].0, keys));
            lemma_pass_shape(b1, rest);
        } else {
            lemma_pass_shape(b, rest);
            let (b2, r2) = pass(b, rest);
            let out = seq![(i, keys)] + r2;
            assert forall|k: int| 0 <= k < out.len() implies 0 <= #[trigger] out[k].0 < b.len() by {
                if k > 0 {
                    assert(out[k] == r2[k - 1]);
                }
            }
            if out.len() == p.len() {
                assert(out =~= p) by {
                    assert forall|k: int| 0 <= k < p.len() implies out[k] == p[k] by {
                        if k > 0 {
                            assert(out[k] == r2[k - 1]);
                            assert(r2[k - 1] == rest[k - 1]);
                        }
                    }
                }
                assert forall|k: int| 0 <= k < p.len() implies !free(b, #[trigger] p[k].0, p[k].1) by {
                    if k > 0 {
                        assert(p[k] == rest[k - 1]);
                    }
                }
            }
        }
    }
}

/// One pass over `pending`, applying what is free to `b`.
fn apply_pass(b: &mut Vec<Binding>, pending: &Vec<(usize, Vec<String>)>) -> (r: Vec<
    (usize, Vec<String>),
>)
    requires
        in_range(pend(pending@), old(b)@.len() as int),
    ensures
        (models(final(b)@), pend(r@)) == pass(models(old(b)@), pend(pending@)),
{
    let ghost p = pend(pending@);
    let ghost b0 = models(b@);
    let mut kept: Vec<(usize, Vec<String>)> = Vec::new();
    let mut k: usize = 0;
    assert(p.skip(0) =~= p);
    while k < pending.len()
        invariant
            k <= pending@.len(),
            p == pend(pending@),
            b@.len() == b0.len(),
            in_range(p, b0.len() as int),
            pass(b0, p) == (
                pass(models(b@), p.skip(k as int)).0,
                pend(kept@) + pass(models(b@), p.skip(k as int)).1,
            ),
        decreases pending@.len() - k,
    {
        let ghost t = models(b@);
        let ghost q = p.skip(k as int);
        assert(q[0] == p[k as int]);
        assert(q.drop_first() =~= p.skip(k + 1));
        let i = pending[k].0;
        assert(0 <= p[k as int].0 < b0.len());
        if is_free(b, i, &pending[k].1) {
            let keys = copy_keys(&pending[k].1);
            let binding = Binding { action: b[i].action.clone(), keys };
            b.set(i, binding);
            assert(models(b@) =~= t.update(i as int, (t[i as int].0, q[0].1)));
        } else {
            let item = (i, copy_keys(&pending[k].1));
            let ghost before = kept@;
            kept.push(item);
            assert(pend(kept@) =~= pend(before).push(q[0]));
            let ghost rest = pass(t, q.drop_first()).1;
            assert(pend(before) + (seq![q[0]] + rest) =~= pend(kept@) + rest);
        }
        k = k + 1;
    }
    assert(p.skip(k as int) =~= Seq::<(int, Seq<Name>)>::empty());
    assert(pend(kept@) + Seq::<(int, Seq<Name>)>::empty() =~= pend(kept@));
    kept
}

/// The applicable overrides stored in `list`, in action order.
fn collect_candidates(list: &Vec<(String, StoredKeys)>, b: &Vec<Binding>, macos: bool) -> (r: Vec<
    (usize, Vec<String>),
>)
    requires
        models(b@) == default_bindings(macos),
    ensures
        pend(r@) == candidates(stored_entries(list@), macos, action_count() as int),
        in_range(pend(r@), action_count() as int),
{
    let ghost e = stored_entries(list@);
    assert(default_bindings(macos).len() == action_count());
    let mut out: Vec<(usize, Vec<String>)> = Vec::new();
    let mut i: usize = 0;
    while i < b.len()
        invariant
            i <= b@.len(),
            models(b@) == default_bindings(macos),
            b@.len() == action_count(),
            e == stored_entries(list@),
            pend(out@) == candidates(e, macos, i as int),
            in_range(pend(out@), i as int),
        decreases b@.len() - i,
    {
        assert(models(b@)[i as int].0 == default_bindings(macos)[i as int].0);
        let found = match find_entry(list, b[i].action.as_str()) {
            Some(value) => match parse_keys(value) {
                Some(keys) => if any_forbidden(&keys, macos) {
                    None
                } else {
                    Some(keys)
                },
                None => None,
            },
            None => None,
        };
        match found {
            Some(keys) => {
                assert(candidate(e, macos, i as int) == Some(names(keys@)));
                let ghost before = out@;
                out.push((i, keys));
                assert(pend(out@) =~= pend(before).push((i as int, names(keys@))));
                assert(pend(out@) =~= candidates(e, macos, i + 1));
            },
            None => {
                assert(candidate(e, macos, i as int) is None);
                assert(candidates(e, macos, i + 1) =~= candidates(e, macos, i as int));
            },
        }
        i = i + 1;
    }
    out
}

} // verus!

verus! {

/// The stored setting as `resolved` reads it.
pub open spec fn stored_model(overrides: Option<&StoredShortcuts>) -> Option<
    Option<Seq<(Name, Option<Seq<Option<Name>>>)>>,
> {
    match overrides {
        Some(s) => Some(s@),
        None => None,
    }
}

impl Keymap {
    /// Merge the stored `shortcuts` value over the defaults of macOS
    /// (`macos`) or elsewhere. Every entry that cannot be used keeps its
    /// action's default; an override whose key is already bound to another
    /// action is skipped, so the earlier action wins, and is kept in the
    /// stored value (`overrides`), minus any modifier-only keys.
    pub fn from_overrides(overrides: Option<&StoredShortcuts>, macos: bool) -> (r: Keymap)
        ensures
            (r.table(), r.stash()) == resolved(stored_model(overrides), macos),
            r.on_macos() == macos,
    {
        let keymap = Keymap::defaults(macos);
        let list = match overrides {
            Some(StoredShortcuts::Object(list)) => list,
            _ => return keymap,
        };
        let Keymap { bindings, inactive: _, macos: _ } = keymap;
        let mut bindings = bindings;
        let mut pending = collect_candidates(list, &bindings, macos);
        let ghost b0 = default_bindings(macos);
        let ghost p0 = pend(pending@);
        assert(b0.len() == action_count());
        loop
            invariant
                settle(models(bindings@), pend(pending@)) == settle(b0, p0),
                bindings@.len() == action_count(),
                in_range(pend(pending@), action_count() as int),
                forall|i: int| 0 <= i < action_count() ==> #[trigger] models(bindings@)[i].0 == b0[i].0,
            ensures
                settle(b0, p0) == (models(bindings@), pend(pending@)),
                bindings@.len() == action_count(),
                in_range(pend(pending@), action_count() as int),
            decreases pending@.len(),
        {
            let before = pending.len();
            let ghost t = models(bindings@);
            let ghost p = pend(pending@);
            proof {
                lemma_pass_shape(t, p);
            }
            let next = apply_pass(&mut bindings, &pending);
            pending = next;
            if pending.len() == before {
                assert(settle(t, p) == (models(bindings@), pend(pending@)));
                break;
            }
        }
        let ghost fin = models(bindings@);
        let ghost rest = pend(pending@);
        let mut inactive: Vec<Binding> = Vec::new();
        let mut k: usize = 0;
        while k < pending.len()
            invariant
                k <= pending@.len(),
                rest == pend(pending@),
                fin == models(bindings@),
                fin.len() == action_count(),
                in_range(rest, action_count() as int),
                models(inactive@) == stashed(fin, rest.take(k as int)),
            decreases pending@.len() - k,
        {
            let i = pending[k].0;
            assert(0 <= rest[k as int].0 < action_count());
            let entry = Binding { action: bindings[i].action.clone(), keys: copy_keys(&pending[k].1) };
            let ghost before = inactive@;
            inactive.push(entry);
            assert(models(inactive@) =~= models(before).push(entry@));
            assert(stashed(fin, rest.take(k + 1)) =~= stashed(fin, rest.take(k as int)).push(entry@));
            k = k + 1;
        }
        assert(rest.take(k as int) =~= rest);
        Keymap { bindings, inactive, macos }
    }
}

/// The pending overrides name each action at most once.
pub open spec fn distinct_actions(p: Seq<(int, Seq<Name>)>) -> bool {
    forall|i: int, j: int| 0 <= i < j < p.len() ==> p[i].0 != p[j].0
}

} // verus!

verus! {

/// A keymap's bindings are sound on a platform: no key is bound to two
/// actions, none is forbidden, and every action has a key.
pub open spec fn sound(t: Seq<BindingModel>, macos: bool) -> bool {
    &&& binds_no_key_twice(t)
    &&& binds_no_forbidden_key(t, macos)
    &&& every_action_has_a_key(t)
}

/// Keys that may be applied: at least one, none forbidden.
pub open spec fn applicable(p: Seq<(int, Seq<Name>)>, macos: bool) -> bool {
    forall|k: int|
        0 <= k < p.len() ==> (#[trigger] p[k]).1.len() > 0 && forall|key: Name|
            p[k].1.contains(key) ==> forbidden_reason(key, macos) is None
}

/// Giving the binding at `i` keys that are free, allowed and at least one
/// keeps the bindings sound.
proof fn lemma_update_sound(b: Seq<BindingModel>, macos: bool, i: int, keys: Seq<Name>)
    requires
        sound(b, macos),
        0 <= i < b.len(),
        free(b, i, keys),
        keys.len() > 0,
        forall|key: Name| keys.contains(key) ==> forbidden_reason(key, macos) is None,
    ensures
        sound(b.update(i, (b[i].0, keys)), macos),
{
    let b2 = b.update(i, (b[i].0, keys));
    assert forall|x: int, y: int, k: Name|
        0 <= x < b2.len() && 0 <= y < b2.len() && b2[x].0 != b2[y].0 && #[trigger] b2[x].1.contains(
            k,
        ) implies !#[trigger] b2[y].1.contains(k) by {
        if x == i {
            assert(keys.contains(k));
            if b2[y].1.contains(k) {
                assert(b[y].1.contains(k));
                assert(held_elsewhere(b, b[i].0, k));
            }
        } else if y == i {
            if b2[y].1.contains(k) {
                assert(keys.contains(k));
                assert(b[x].1.contains(k));
                assert(held_elsewhere(b, b[i].0, k));
            }
        }
    }
    assert forall|x: int, k: Name|
        0 <= x < b2.len() && #[trigger] b2[x].1.contains(k) implies forbidden_reason(
        k,
        macos,
    ) is None by {
        if x != i {
            assert(b[x].1.contains(k));
        }
    }
    assert forall|x: int| 0 <= x < b2.len() implies #[trigger] b2[x].1.len() > 0 by {}
}

proof fn lemma_pass_sound(b: Seq<BindingModel>, p: Seq<(int, Seq<Name>)>, macos: bool)
    requires
        sound(b, macos),
        in_range(p, b.len() as int),
        applicable(p, macos),
    ensures
        sound(pass(b, p).0, macos),
        applicable(pass(b, p).1, macos),
    decreases p.len(),
{
    if p.len() > 0 {
        let (i, keys) = p[0];
        let rest = p.drop_first();
        assert forall|k: int| 0 <= k < rest.len() implies 0 <= #[trigger] rest[k].0 < b.len() by {
            assert(rest[k] == p[k + 1]);
        }
        assert forall|k: int| 0 <= k < rest.len() implies (#[trigger] rest[k]).1.len() > 0
            && forall|key: Name|
            rest[k].1.contains(key) ==> forbidden_reason(key, macos) is None by {
            assert(rest[k] == p[k + 1]);
        }
        assert(p[0].1.len() > 0);
        if free(b, i, keys) {
            lemma_update_sound(b, macos, i, keys);
            lemma_pass_sound(b.update(i, (b[i].0, keys)), rest, macos);
        } else {
            lemma_pass_sound(b, rest, macos);
            let r2 = pass(b, rest).1;
            let out = seq![(i, keys)] + r2;
            assert forall|k: int| 0 <= k < out.len() implies (#[trigger] out[k]).1.len() > 0
                && forall|key: Name|
                out[k].1.contains(key) ==> forbidden_reason(key, macos) is None by {
                if k > 0 {
                    assert(out[k] == r2[k - 1]);
                }
            }
        }
    }
}

proof fn lemma_settle_sound(b: Seq<BindingModel>, p: Seq<(int, Seq<Name>)>, macos: bool)
    requires
        sound(b, macos),
        in_range(p, b.len() as int),
        applicable(p, macos),
    ensures
        sound(settle(b, p).0, macos),
        settle(b, p).0.len() == b.len(),
        forall|i: int| 0 <= i < b.len() ==> #[trigger] settle(b, p).0[i].0 == b[i].0,
        forall|k: int|
            0 <= k < settle(b, p).1.len() ==> !free(
                settle(b, p).0,
                #[trigger] settle(b, p).1[k].0,
                settle(b, p).1[k].1,
            ),
    decreases p.len(),
{
    lemma_pass_shape(b, p);
    lemma_pass_sound(b, p, macos);
    let (b2, rest) = pass(b, p);
    if rest.len() < p.len() {
        lemma_settle_sound(b2, rest, macos);
    }
}

pub(crate) proof fn lemma_candidates_applicable(
    e: Seq<(Name, Option<Seq<Option<Name>>>)>,
    macos: bool,
    n: int,
)
    requires
        0 <= n <= action_count(),
    ensures
        applicable(candidates(e, macos, n), macos),
        in_range(candidates(e, macos, n), n),
    decreases n,
{
    if n > 0 {
        lemma_candidates_applicable(e, macos, n - 1);
        let prev = candidates(e, macos, n - 1);
        let c = candidates(e, macos, n);
        if let Some(keys) = candidate(e, macos, n - 1) {
            assert(c == prev + seq![(n - 1, keys)]);
            let v = lookup(e, default_bindings(macos)[n - 1].0)->0;
            assert(parsed_keys(v) == Some(keys));
            assert forall|k: int| 0 <= k < c.len() implies (#[trigger] c[k]).1.len() > 0
                && forall|key: Name|
                c[k].1.contains(key) ==> forbidden_reason(key, macos) is None by {
                if k < prev.len() {
                    assert(c[k] == prev[k]);
                }
            }
            assert forall|k: int| 0 <= k < c.len() implies 0 <= #[trigger] c[k].0 < n by {
                if k < prev.len() {
                    assert(c[k] == prev[k]);
                }
            }
        } else {
            assert(c =~= prev);
        }
    }
}

/// Merging the stored overrides keeps the keymap sound: no key bound to
/// two actions, no forbidden key bound, every action keeps a key, the
/// actions and their order unchanged; and every override it skips conflicts
/// with a binding, which is why it was skipped.
pub proof fn law_merge_keeps_the_keymap_sound(
    stored: Option<Option<Seq<(Name, Option<Seq<Option<Name>>>)>>>,
    macos: bool,
)
    ensures
        sound(resolved(stored, macos).0, macos),
        resolved(stored, macos).0.len() == action_count(),
        forall|i: int|
            0 <= i < action_count() ==> #[trigger] resolved(stored, macos).0[i].0 == default_bindings(
                macos,
            )[i].0,
        every_skip_conflicts(resolved(stored, macos).0, resolved(stored, macos).1),
{
    let d = default_bindings(macos);
    assert(d.len() == action_count());
    law_the_defaults_are_sound(macos);
    if let Some(Some(e)) = stored {
        lemma_candidates_applicable(e, macos, action_count() as int);
        let p = candidates(e, macos, action_count() as int);
        lemma_settle_sound(d, p, macos);
        let (b, rest) = settle(d, p);
        lemma_pass_shape(d, p);
        let st = stashed(b, rest);
        assert forall|k: int| 0 <= k < st.len() implies !free_of(b, (#[trigger] st[k]).0, st[k].1) by {
            lemma_settle_range(d, p);
            assert(!free(b, rest[k].0, rest[k].1));
            assert(st[k] == (b[rest[k].0].0, rest[k].1));
        }
        assert(resolved(stored, macos) == (b, st));
        assert(every_skip_conflicts(b, st));
    }
}

/// Every skipped override holds a key that another action holds.
pub open spec fn every_skip_conflicts(b: Seq<BindingModel>, st: Seq<BindingModel>) -> bool {
    forall|k: int| 0 <= k < st.len() ==> !free_of(b, (#[trigger] st[k]).0, st[k].1)
}

proof fn lemma_settle_range(b: Seq<BindingModel>, p: Seq<(int, Seq<Name>)>)
    requires
        in_range(p, b.len() as int),
    ensures
        in_range(settle(b, p).1, b.len() as int),
        settle(b, p).0.len() == b.len(),
    decreases p.len(),
{
    lemma_pass_shape(b, p);
    let (b2, rest) = pass(b, p);
    if rest.len() < p.len() {
        lemma_settle_range(b2, rest);
    }
}

} // verus!

verus! {

/// The keys a sound binding already holds are free for it.
proof fn lemma_own_keys_free(t: Seq<BindingModel>, macos: bool, i: int, k: Name)
    requires
        sound(t, macos),
        0 <= i < t.len(),
        t[i].1.contains(k),
    ensures
        !held_elsewhere(t, t[i].0, k),
{
    if held_elsewhere(t, t[i].0, k) {
        let j = choose|j: int| 0 <= j < t.len() && t[j].0 != t[i].0 && #[trigger] t[j].1.contains(k);
        assert(t[i].1.contains(k));
    }
}

/// A successful `add` keeps a sound keymap sound.
pub proof fn law_add_keeps_the_keymap_sound(
    t: Seq<BindingModel>,
    macos: bool,
    action: Name,
    key: Name,
)
    requires
        sound(t, macos),
    ensures
        add_outcome(t, macos, action, key) matches Ok(i) ==> sound(
            t.update(i, (t[i].0, t[i].1.push(key))),
            macos,
        ),
{
    if let Ok(i) = add_outcome(t, macos, action, key) {
        lemma_position(t, action);
        lemma_holder(t, action, key);
        let keys = t[i].1.push(key);
        assert forall|k: Name| keys.contains(k) implies !held_elsewhere(t, t[i].0, k) by {
            let x = choose|x: int| 0 <= x < keys.len() && keys[x] == k;
            if x < t[i].1.len() {
                assert(t[i].1[x] == k);
                lemma_own_keys_free(t, macos, i, k);
            }
        }
        assert forall|k: Name| keys.contains(k) implies forbidden_reason(k, macos) is None by {
            let x = choose|x: int| 0 <= x < keys.len() && keys[x] == k;
            if x < t[i].1.len() {
                assert(t[i].1[x] == k);
                assert(t[i].1.contains(k));
            }
        }
        lemma_update_sound(t, macos, i, keys);
    }
}

/// A successful `remove` keeps a sound keymap sound.
pub proof fn law_remove_keeps_the_keymap_sound(t: Seq<BindingModel>, macos: bool, action: Name, key: Name)
    requires
        sound(t, macos),
    ensures
        remove_outcome(t, action, key) matches Ok(i) ==> sound(
            t.update(i, (t[i].0, t[i].1.remove(first_index(t[i].1, key)))),
            macos,
        ),
{
    if let Ok(i) = remove_outcome(t, action, key) {
        lemma_position(t, action);
        lemma_first_index_in(t[i].1, key);
        let at = first_index(t[i].1, key);
        let keys = t[i].1.remove(at);
        assert forall|k: Name| keys.contains(k) implies t[i].1.contains(k) by {
            let x = choose|x: int| 0 <= x < keys.len() && keys[x] == k;
            if x < at {
                assert(t[i].1[x] == k);
            } else {
                assert(t[i].1[x + 1] == k);
            }
        }
        assert forall|k: Name| keys.contains(k) implies !held_elsewhere(t, t[i].0, k) by {
            lemma_own_keys_free(t, macos, i, k);
        }
        lemma_update_sound(t, macos, i, keys);
    }
}

proof fn lemma_first_index_in(keys: Seq<Name>, key: Name)
    requires
        keys.contains(key),
    ensures
        0 <= first_index(keys, key) < keys.len(),
        keys[first_index(keys, key)] == key,
        forall|j: int| 0 <= j < first_index(keys, key) ==> keys[j] != key,
    decreases keys.len(),
{
    if keys[0] != key {
        let rest = keys.drop_first();
        let x = choose|x: int| 0 <= x < keys.len() && keys[x] == key;
        assert(rest[x - 1] == key);
        lemma_first_index_in(rest, key);
        assert forall|j: int| 0 <= j < first_index(keys, key) implies keys[j] != key by {
            if j > 0 {
                assert(keys[j] == rest[j - 1]);
            }
        }
    }
}

/// A successful `reset` keeps a sound keymap sound, when the defaults are.
pub proof fn law_reset_keeps_the_keymap_sound(t: Seq<BindingModel>, macos: bool, action: Name)
    requires
        sound(t, macos),
        t.len() == action_count(),
    ensures
        reset_outcome(t, macos, action) matches Ok(i) ==> sound(
            t.update(i, (t[i].0, default_bindings(macos)[i].1)),
            macos,
        ),
{
    if let Ok(i) = reset_outcome(t, macos, action) {
        law_the_defaults_are_sound(macos);
        lemma_position(t, action);
        let d = default_bindings(macos);
        assert(d.len() == action_count());
        let keys = d[i].1;
        lemma_conflict(t, action, keys);
        assert forall|k: Name| keys.contains(k) implies !held_elsewhere(t, t[i].0, k) by {
            let x = choose|x: int| 0 <= x < keys.len() && keys[x] == k;
            lemma_holder(t, action, keys[x]);
        }
        assert forall|k: Name| keys.contains(k) implies forbidden_reason(k, macos) is None by {
            assert(d[i].1.contains(k));
        }
        assert(d[i].1.len() > 0);
        lemma_update_sound(t, macos, i, keys);
    }
}

/// `position` reads only the names.
proof fn lemma_position_by_names(t: Seq<BindingModel>, u: Seq<BindingModel>, action: Name)
    requires
        t.len() == u.len(),
        forall|i: int| 0 <= i < t.len() ==> t[i].0 == u[i].0,
    ensures
        position(t, action) == position(u, action),
    decreases t.len(),
{
    if t.len() > 0 {
        lemma_position_by_names(t.drop_last(), u.drop_last(), action);
    }
}

/// Adding a key to an action and then removing that key restores the
/// bindings of a sound keymap.
pub proof fn law_add_then_remove_restores(t: Seq<BindingModel>, macos: bool, action: Name, key: Name)
    requires
        sound(t, macos),
    ensures
        add_outcome(t, macos, action, key) matches Ok(i) ==> {
            let added = t.update(i, (t[i].0, t[i].1.push(key)));
            &&& remove_outcome(added, action, key) == Ok::<int, Seq<char>>(i)
            &&& added.update(
                i,
                (added[i].0, added[i].1.remove(first_index(added[i].1, key))),
            ) == t
        },
{
    if let Ok(i) = add_outcome(t, macos, action, key) {
        lemma_position(t, action);
        let keys = t[i].1.push(key);
        let added = t.update(i, (t[i].0, keys));
        lemma_position_by_names(t, added, action);
        assert(keys[t[i].1.len() as int] == key);
        assert(keys.contains(key));
        assert(t[i].1.len() > 0);
        lemma_first_index_in(keys, key);
        let at = first_index(keys, key);
        if at < t[i].1.len() {
            assert(t[i].1[at] == key);
            assert(t[i].1.contains(key));
        }
        assert(keys.remove(at) =~= t[i].1);
        assert(added.update(i, (added[i].0, keys.remove(at))) =~= t);
    }
}

} // verus!

verus! {

/// The default keys are pairwise distinct.
proof fn lemma_default_keys_distinct(macos: bool)
    ensures
        forall|i: int, j: int|
            0 <= i < j < action_count() ==> #[trigger] default_bindings(macos)[i].1[0]
                != #[trigger] default_bindings(macos)[j].1[0],
{
    reveal_strlit("arrowup");
    reveal_strlit("arrowdown");
    reveal_strlit("arrowleft");
    reveal_strlit("arrowright");
    reveal_strlit("alt+arrowup");
    reveal_strlit("alt+arrowdown");
    reveal_strlit("shift+arrowup");
    reveal_strlit("shift+arrowdown");
    reveal_strlit("f");
    reveal_strlit("z");
    reveal_strlit("g");
    reveal_strlit("v");
    reveal_strlit("1");
    reveal_strlit("2");
    reveal_strlit("3");
    reveal_strlit("4");
    reveal_strlit("5");
    reveal_strlit("x");
    reveal_strlit("shift+x");
    reveal_strlit("p");
    reveal_strlit("u");
    reveal_strlit("0");
    reveal_strlit("ctrl+alt+1");
    reveal_strlit("ctrl+alt+2");
    reveal_strlit("ctrl+alt+3");
    reveal_strlit("ctrl+alt+4");
    reveal_strlit("ctrl+alt+5");
    reveal_strlit("ctrl+alt+6");
    reveal_strlit("ctrl+alt+7");
    reveal_strlit("ctrl+alt+0");
    reveal_strlit("c");
    reveal_strlit("meta+o");
    reveal_strlit("ctrl+o");
    reveal_strlit("shift+meta+o");
    reveal_strlit("ctrl+shift+o");
    reveal_strlit("meta+z");
    reveal_strlit("ctrl+z");
    reveal_strlit("shift+meta+z");
    reveal_strlit("ctrl+shift+z");
    assert("arrowup"@.len() == 7 && "arrowup"@[0] == 'a' && "arrowup"@[5] == 'u');
    assert("arrowdown"@.len() == 9 && "arrowdown"@[0] == 'a' && "arrowdown"@[5] == 'd');
    assert("arrowleft"@.len() == 9 && "arrowleft"@[0] == 'a' && "arrowleft"@[5] == 'l');
    assert("arrowright"@.len() == 10 && "arrowright"@[0] == 'a' && "arrowright"@[5] == 'r' && "arrowright"@[9] == 't');
    assert("alt+arrowup"@.len() == 11 && "alt+arrowup"@[0] == 'a' && "alt+arrowup"@[5] == 'r' && "alt+arrowup"@[9] == 'u');
    assert("alt+arrowdown"@.len() == 13 && "alt+arrowdown"@[0] == 'a' && "alt+arrowdown"@[5] == 'r' && "alt+arrowdown"@[9] == 'd' && "alt+arrowdown"@[11] == 'w');
    assert("shift+arrowup"@.len() == 13 && "shift+arrowup"@[0] == 's' && "shift+arrowup"@[5] == '+' && "shift+arrowup"@[9] == 'o' && "shift+arrowup"@[11] == 'u');
    assert("shift+arrowdown"@.len() == 15 && "shift+arrowdown"@[0] == 's' && "shift+arrowdown"@[5] == '+' && "shift+arrowdown"@[9] == 'o' && "shift+arrowdown"@[11] == 'd');
    assert("f"@.len() == 1 && "f"@[0] == 'f');
    assert("z"@.len() == 1 && "z"@[0] == 'z');
    assert("g"@.len() == 1 && "g"@[0] == 'g');
    assert("v"@.len() == 1 && "v"@[0] == 'v');
    assert("1"@.len() == 1 && "1"@[0] == '1');
    assert("2"@.len() == 1 && "2"@[0] == '2');
    assert("3"@.len() == 1 && "3"@[0] == '3');
    assert("4"@.len() == 1 && "4"@[0] == '4');
    assert("5"@.len() == 1 && "5"@[0] == '5');
    assert("x"@.len() == 1 && "x"@[0] == 'x');
    assert("shift+x"@.len() == 7 && "shift+x"@[0] == 's' && "shift+x"@[5] == '+');
    assert("p"@.len() == 1 && "p"@[0] == 'p');
    assert("u"@.len() == 1 && "u"@[0] == 'u');
    assert("0"@.len() == 1 && "0"@[0] == '0');
    assert("ctrl+alt+1"@.len() == 10 && "ctrl+alt+1"@[0] == 'c' && "ctrl+alt+1"@[5] == 'a' && "ctrl+alt+1"@[9] == '1');
    assert("ctrl+alt+2"@.len() == 10 && "ctrl+alt+2"@[0] == 'c' && "ctrl+alt+2"@[5] == 'a' && "ctrl+alt+2"@[9] == '2');
    assert("ctrl+alt+3"@.len() == 10 && "ctrl+alt+3"@[0] == 'c' && "ctrl+alt+3"@[5] == 'a' && "ctrl+alt+3"@[9] == '3');
    assert("ctrl+alt+4"@.len() == 10 && "ctrl+alt+4"@[0] == 'c' && "ctrl+alt+4"@[5] == 'a' && "ctrl+alt+4"@[9] == '4');
    assert("ctrl+alt+5"@.len() == 10 && "ctrl+alt+5"@[0] == 'c' && "ctrl+alt+5"@[5] == 'a' && "ctrl+alt+5"@[9] == '5');
    assert("ctrl+alt+6"@.len() == 10 && "ctrl+alt+6"@[0] == 'c' && "ctrl+alt+6"@[5] == 'a' && "ctrl+alt+6"@[9] == '6');
    assert("ctrl+alt+7"@.len() == 10 && "ctrl+alt+7"@[0] == 'c' && "ctrl+alt+7"@[5] == 'a' && "ctrl+alt+7"@[9] == '7');
    assert("ctrl+alt+0"@.len() == 10 && "ctrl+alt+0"@[0] == 'c' && "ctrl+alt+0"@[5] == 'a' && "ctrl+alt+0"@[9] == '0');
    assert("c"@.len() == 1 && "c"@[0] == 'c');
    assert("meta+o"@.len() == 6 && "meta+o"@[0] == 'm' && "meta+o"@[5] == 'o');
    assert("ctrl+o"@.len() == 6 && "ctrl+o"@[0] == 'c' && "ctrl+o"@[5] == 'o');
    assert("shift+meta+o"@.len() == 12 && "shift+meta+o"@[0] == 's' && "shift+meta+o"@[5] == '+' && "shift+meta+o"@[9] == 'a' && "shift+meta+o"@[11] == 'o');
    assert("ctrl+shift+o"@.len() == 12 && "ctrl+shift+o"@[0] == 'c' && "ctrl+shift+o"@[5] == 's' && "ctrl+shift+o"@[9] == 't' && "ctrl+shift+o"@[11] == 'o');
    assert("meta+z"@.len() == 6 && "meta+z"@[0] == 'm' && "meta+z"@[5] == 'z');
    assert("ctrl+z"@.len() == 6 && "ctrl+z"@[0] == 'c' && "ctrl+z"@[5] == 'z');
    assert("shift+meta+z"@.len() == 12 && "shift+meta+z"@[0] == 's' && "shift+meta+z"@[5] == '+' && "shift+meta+z"@[9] == 'a' && "shift+meta+z"@[11] == 'z');
    assert("ctrl+shift+z"@.len() == 12 && "ctrl+shift+z"@[0] == 'c' && "ctrl+shift+z"@[5] == 's' && "ctrl+shift+z"@[9] == 't' && "ctrl+shift+z"@[11] == 'z');
}

} // verus!

verus! {

/// No default key is one its platform forbids.
proof fn lemma_default_keys_allowed(macos: bool)
    ensures
        forall|i: int|
            0 <= i < action_count() ==> forbidden_reason(
                #[trigger] default_bindings(macos)[i].1[0],
                macos,
            ) is None,
{
    if macos {
        reveal_strlit("arrowup");
        reveal_strlit("arrowdown");
        reveal_strlit("arrowleft");
        reveal_strlit("arrowright");
        reveal_strlit("alt+arrowup");
        reveal_strlit("alt+arrowdown");
        reveal_strlit("shift+arrowup");
        reveal_strlit("shift+arrowdown");
        reveal_strlit("meta+o");
        reveal_strlit("shift+meta+o");
        reveal_strlit("meta+z");
        reveal_strlit("shift+meta+z");
        reveal_strlit("f");
        reveal_strlit("z");
        reveal_strlit("g");
        reveal_strlit("v");
        reveal_strlit("1");
        reveal_strlit("2");
        reveal_strlit("3");
        reveal_strlit("4");
        reveal_strlit("5");
        reveal_strlit("x");
        reveal_strlit("shift+x");
        reveal_strlit("p");
        reveal_strlit("u");
        reveal_strlit("0");
        reveal_strlit("ctrl+alt+1");
        reveal_strlit("ctrl+alt+2");
        reveal_strlit("ctrl+alt+3");
        reveal_strlit("ctrl+alt+4");
        reveal_strlit("ctrl+alt+5");
        reveal_strlit("ctrl+alt+6");
        reveal_strlit("ctrl+alt+7");
        reveal_strlit("ctrl+alt+0");
        reveal_strlit("c");
        reveal_strlit("meta+,");
        reveal_strlit("meta+q");
        reveal_strlit("meta+h");
        reveal_strlit("alt+meta+h");
        reveal_strlit("meta+w");
        reveal_strlit("meta+m");
        reveal_strlit("ctrl+meta+f");
        reveal_strlit("meta+x");
        reveal_strlit("meta+c");
        reveal_strlit("meta+v");
        reveal_strlit("meta+a");
        reveal_strlit("meta+tab");
        reveal_strlit("shift+meta+tab");
        reveal_strlit("meta+space");
        reveal_strlit("alt+meta+space");
        reveal_strlit("ctrl+space");
        reveal_strlit("meta+`");
        reveal_strlit("shift+meta+`");
        reveal_strlit("alt+meta+escape");
        reveal_strlit("ctrl+meta+q");
        reveal_strlit("shift+meta+q");
        reveal_strlit("shift+meta+3");
        reveal_strlit("shift+meta+4");
        reveal_strlit("shift+meta+5");
        reveal_strlit("alt+meta+d");
        reveal_strlit("ctrl+meta+space");
        reveal_strlit("ctrl+arrowleft");
        reveal_strlit("ctrl+arrowright");
        reveal_strlit("ctrl+arrowup");
        reveal_strlit("ctrl+arrowdown");
        assert("arrowup"@.len() == 7 && "arrowup"@[0] == 'a' && "arrowup"@[1] == 'r' && "arrowup"@[5] == 'u');
        assert("arrowdown"@.len() == 9 && "arrowdown"@[0] == 'a' && "arrowdown"@[1] == 'r' && "arrowdown"@[5] == 'd' && "arrowdown"@[7] == 'w');
        assert("arrowleft"@.len() == 9 && "arrowleft"@[0] == 'a' && "arrowleft"@[1] == 'r' && "arrowleft"@[5] == 'l' && "arrowleft"@[7] == 'f');
        assert("arrowright"@.len() == 10 && "arrowright"@[0] == 'a' && "arrowright"@[1] == 'r' && "arrowright"@[5] == 'r' && "arrowright"@[7] == 'g');
        assert("alt+arrowup"@.len() == 11 && "alt+arrowup"@[0] == 'a' && "alt+arrowup"@[1] == 'l' && "alt+arrowup"@[5] == 'r' && "alt+arrowup"@[7] == 'o');
        assert("alt+arrowdown"@.len() == 13 && "alt+arrowdown"@[0] == 'a' && "alt+arrowdown"@[1] == 'l' && "alt+arrowdown"@[5] == 'r' && "alt+arrowdown"@[7] == 'o' && "alt+arrowdown"@[11] == 'w');
        assert("shift+arrowup"@.len() == 13 && "shift+arrowup"@[0] == 's' && "shift+arrowup"@[1] == 'h' && "shift+arrowup"@[5] == '+' && "shift+arrowup"@[7] == 'r' && "shift+arrowup"@[11] == 'u');
        assert("shift+arrowdown"@.len() == 15 && "shift+arrowdown"@[0] == 's' && "shift+arrowdown"@[1] == 'h' && "shift+arrowdown"@[5] == '+' && "shift+arrowdown"@[7] == 'r' && "shift+arrowdown"@[11] == 'd');
        assert("meta+o"@.len() == 6 && "meta+o"@[0] == 'm' && "meta+o"@[1] == 'e' && "meta+o"@[5] == 'o');
        assert("shift+meta+o"@.len() == 12 && "shift+meta+o"@[0] == 's' && "shift+meta+o"@[1] == 'h' && "shift+meta+o"@[5] == '+' && "shift+meta+o"@[7] == 'e' && "shift+meta+o"@[11] == 'o');
        assert("meta+z"@.len() == 6 && "meta+z"@[0] == 'm' && "meta+z"@[1] == 'e' && "meta+z"@[5] == 'z');
        assert("shift+meta+z"@.len() == 12 && "shift+meta+z"@[0] == 's' && "shift+meta+z"@[1] == 'h' && "shift+meta+z"@[5] == '+' && "shift+meta+z"@[7] == 'e' && "shift+meta+z"@[11] == 'z');
        assert("f"@.len() == 1 && "f"@[0] == 'f');
        assert("z"@.len() == 1 && "z"@[0] == 'z');
        assert("g"@.len() == 1 && "g"@[0] == 'g');
        assert("v"@.len() == 1 && "v"@[0] == 'v');
        assert("1"@.len() == 1 && "1"@[0] == '1');
        assert("2"@.len() == 1 && "2"@[0] == '2');
        assert("3"@.len() == 1 && "3"@[0] == '3');
        assert("4"@.len() == 1 && "4"@[0] == '4');
        assert("5"@.len() == 1 && "5"@[0] == '5');
        assert("x"@.len() == 1 && "x"@[0] == 'x');
        assert("shift+x"@.len() == 7 && "shift+x"@[0] == 's' && "shift+x"@[1] == 'h' && "shift+x"@[5] == '+');
        assert("p"@.len() == 1 && "p"@[0] == 'p');
        assert("u"@.len() == 1 && "u"@[0] == 'u');
        assert("0"@.len() == 1 && "0"@[0] == '0');
        assert("ctrl+alt+1"@.len() == 10 && "ctrl+alt+1"@[0] == 'c' && "ctrl+alt+1"@[1] == 't' && "ctrl+alt+1"@[5] == 'a' && "ctrl+alt+1"@[7] == 't');
        assert("ctrl+alt+2"@.len() == 10 && "ctrl+alt+2"@[0] == 'c' && "ctrl+alt+2"@[1] == 't' && "ctrl+alt+2"@[5] == 'a' && "ctrl+alt+2"@[7] == 't');
        assert("ctrl+alt+3"@.len() == 10 && "ctrl+alt+3"@[0] == 'c' && "ctrl+alt+3"@[1] == 't' && "ctrl+alt+3"@[5] == 'a' && "ctrl+alt+3"@[7] == 't');
        assert("ctrl+alt+4"@.len() == 10 && "ctrl+alt+4"@[0] == 'c' && "ctrl+alt+4"@[1] == 't' && "ctrl+alt+4"@[5] == 'a' && "ctrl+alt+4"@[7] == 't');
        assert("ctrl+alt+5"@.len() == 10 && "ctrl+alt+5"@[0] == 'c' && "ctrl+alt+5"@[1] == 't' && "ctrl+alt+5"@[5] == 'a' && "ctrl+alt+5"@[7] == 't');
        assert("ctrl+alt+6"@.len() == 10 && "ctrl+alt+6"@[0] == 'c' && "ctrl+alt+6"@[1] == 't' && "ctrl+alt+6"@[5] == 'a' && "ctrl+alt+6"@[7] == 't');
        assert("ctrl+alt+7"@.len() == 10 && "ctrl+alt+7"@[0] == 'c' && "ctrl+alt+7"@[1] == 't' && "ctrl+alt+7"@[5] == 'a' && "ctrl+alt+7"@[7] == 't');
        assert("ctrl+alt+0"@.len() == 10 && "ctrl+alt+0"@[0] == 'c' && "ctrl+alt+0"@[1] == 't' && "ctrl+alt+0"@[5] == 'a' && "ctrl+alt+0"@[7] == 't');
        assert("c"@.len() == 1 && "c"@[0] == 'c');
        assert("meta+,"@.len() == 6 && "meta+,"@[0] == 'm' && "meta+,"@[1] == 'e' && "meta+,"@[5] == ',');
        assert("meta+q"@.len() == 6 && "meta+q"@[0] == 'm' && "meta+q"@[1] == 'e' && "meta+q"@[5] == 'q');
        assert("meta+h"@.len() == 6 && "meta+h"@[0] == 'm' && "meta+h"@[1] == 'e' && "meta+h"@[5] == 'h');
        assert("alt+meta+h"@.len() == 10 && "alt+meta+h"@[0] == 'a' && "alt+meta+h"@[1] == 'l' && "alt+meta+h"@[5] == 'e' && "alt+meta+h"@[7] == 'a');
        assert("meta+w"@.len() == 6 && "meta+w"@[0] == 'm' && "meta+w"@[1] == 'e' && "meta+w"@[5] == 'w');
        assert("meta+m"@.len() == 6 && "meta+m"@[0] == 'm' && "meta+m"@[1] == 'e' && "meta+m"@[5] == 'm');
        assert("ctrl+meta+f"@.len() == 11 && "ctrl+meta+f"@[0] == 'c' && "ctrl+meta+f"@[1] == 't' && "ctrl+meta+f"@[5] == 'm' && "ctrl+meta+f"@[7] == 't');
        assert("meta+x"@.len() == 6 && "meta+x"@[0] == 'm' && "meta+x"@[1] == 'e' && "meta+x"@[5] == 'x');
        assert("meta+c"@.len() == 6 && "meta+c"@[0] == 'm' && "meta+c"@[1] == 'e' && "meta+c"@[5] == 'c');
        assert("meta+v"@.len() == 6 && "meta+v"@[0] == 'm' && "meta+v"@[1] == 'e' && "meta+v"@[5] == 'v');
        assert("meta+a"@.len() == 6 && "meta+a"@[0] == 'm' && "meta+a"@[1] == 'e' && "meta+a"@[5] == 'a');
        assert("meta+tab"@.len() == 8 && "meta+tab"@[0] == 'm' && "meta+tab"@[1] == 'e' && "meta+tab"@[5] == 't' && "meta+tab"@[7] == 'b');
        assert("shift+meta+tab"@.len() == 14 && "shift+meta+tab"@[0] == 's' && "shift+meta+tab"@[1] == 'h' && "shift+meta+tab"@[5] == '+' && "shift+meta+tab"@[7] == 'e' && "shift+meta+tab"@[11] == 't');
        assert("meta+space"@.len() == 10 && "meta+space"@[0] == 'm' && "meta+space"@[1] == 'e' && "meta+space"@[5] == 's' && "meta+space"@[7] == 'a');
        assert("alt+meta+space"@.len() == 14 && "alt+meta+space"@[0] == 'a' && "alt+meta+space"@[1] == 'l' && "alt+meta+space"@[5] == 'e' && "alt+meta+space"@[7] == 'a' && "alt+meta+space"@[11] == 'a');
        assert("ctrl+space"@.len() == 10 && "ctrl+space"@[0] == 'c' && "ctrl+space"@[1] == 't' && "ctrl+space"@[5] == 's' && "ctrl+space"@[7] == 'a');
        assert("meta+`"@.len() == 6 && "meta+`"@[0] == 'm' && "meta+`"@[1] == 'e' && "meta+`"@[5] == '`');
        assert("shift+meta+`"@.len() == 12 && "shift+meta+`"@[0] == 's' && "shift+meta+`"@[1] == 'h' && "shift+meta+`"@[5] == '+' && "shift+meta+`"@[7] == 'e' && "shift+meta+`"@[11] == '`');
        assert("alt+meta+escape"@.len() == 15 && "alt+meta+escape"@[0] == 'a' && "alt+meta+escape"@[1] == 'l' && "alt+meta+escape"@[5] == 'e' && "alt+meta+escape"@[7] == 'a' && "alt+meta+escape"@[11] == 'c');
        assert("ctrl+meta+q"@.len() == 11 && "ctrl+meta+q"@[0] == 'c' && "ctrl+meta+q"@[1] == 't' && "ctrl+meta+q"@[5] == 'm' && "ctrl+meta+q"@[7] == 't');
        assert("shift+meta+q"@.len() == 12 && "shift+meta+q"@[0] == 's' && "shift+meta+q"@[1] == 'h' && "shift+meta+q"@[5] == '+' && "shift+meta+q"@[7] == 'e' && "shift+meta+q"@[11] == 'q');
        assert("shift+meta+3"@.len() == 12 && "shift+meta+3"@[0] == 's' && "shift+meta+3"@[1] == 'h' && "shift+meta+3"@[5] == '+' && "shift+meta+3"@[7] == 'e' && "shift+meta+3"@[11] == '3');
        assert("shift+meta+4"@.len() == 12 && "shift+meta+4"@[0] == 's' && "shift+meta+4"@[1] == 'h' && "shift+meta+4"@[5] == '+' && "shift+meta+4"@[7] == 'e' && "shift+meta+4"@[11] == '4');
        assert("shift+meta+5"@.len() == 12 && "shift+meta+5"@[0] == 's' && "shift+meta+5"@[1] == 'h' && "shift+meta+5"@[5] == '+' && "shift+meta+5"@[7] == 'e' && "shift+meta+5"@[11] == '5');
        assert("alt+meta+d"@.len() == 10 && "alt+meta+d"@[0] == 'a' && "alt+meta+d"@[1] == 'l' && "alt+meta+d"@[5] == 'e' && "alt+meta+d"@[7] == 'a');
        assert("ctrl+meta+space"@.len() == 15 && "ctrl+meta+space"@[0] == 'c' && "ctrl+meta+space"@[1] == 't' && "ctrl+meta+space"@[5] == 'm' && "ctrl+meta+space"@[7] == 't' && "ctrl+meta+space"@[11] == 'p');
        assert("ctrl+arrowleft"@.len() == 14 && "ctrl+arrowleft"@[0] == 'c' && "ctrl+arrowleft"@[1] == 't' && "ctrl+arrowleft"@[5] == 'a' && "ctrl+arrowleft"@[7] == 'r' && "ctrl+arrowleft"@[11] == 'e');
        assert("ctrl+arrowright"@.len() == 15 && "ctrl+arrowright"@[0] == 'c' && "ctrl+arrowright"@[1] == 't' && "ctrl+arrowright"@[5] == 'a' && "ctrl+arrowright"@[7] == 'r' && "ctrl+arrowright"@[11] == 'i');
        assert("ctrl+arrowup"@.len() == 12 && "ctrl+arrowup"@[0] == 'c' && "ctrl+arrowup"@[1] == 't' && "ctrl+arrowup"@[5] == 'a' && "ctrl+arrowup"@[7] == 'r' && "ctrl+arrowup"@[11] == 'p');
        assert("ctrl+arrowdown"@.len() == 14 && "ctrl+arrowdown"@[0] == 'c' && "ctrl+arrowdown"@[1] == 't' && "ctrl+arrowdown"@[5] == 'a' && "ctrl+arrowdown"@[7] == 'r' && "ctrl+arrowdown"@[11] == 'o');
    } else {
        reveal_strlit("arrowup");
        reveal_strlit("arrowdown");
        reveal_strlit("arrowleft");
        reveal_strlit("arrowright");
        reveal_strlit("alt+arrowup");
        reveal_strlit("alt+arrowdown");
        reveal_strlit("shift+arrowup");
        reveal_strlit("shift+arrowdown");
        reveal_strlit("ctrl+o");
        reveal_strlit("ctrl+shift+o");
        reveal_strlit("ctrl+z");
        reveal_strlit("ctrl+shift+z");
        reveal_strlit("f");
        reveal_strlit("z");
        reveal_strlit("g");
        reveal_strlit("v");
        reveal_strlit("1");
        reveal_strlit("2");
        reveal_strlit("3");
        reveal_strlit("4");
        reveal_strlit("5");
        reveal_strlit("x");
        reveal_strlit("shift+x");
        reveal_strlit("p");
        reveal_strlit("u");
        reveal_strlit("0");
        reveal_strlit("ctrl+alt+1");
        reveal_strlit("ctrl+alt+2");
        reveal_strlit("ctrl+alt+3");
        reveal_strlit("ctrl+alt+4");
        reveal_strlit("ctrl+alt+5");
        reveal_strlit("ctrl+alt+6");
        reveal_strlit("ctrl+alt+7");
        reveal_strlit("ctrl+alt+0");
        reveal_strlit("c");
        reveal_strlit("ctrl+,");
        reveal_strlit("ctrl+x");
        reveal_strlit("ctrl+c");
        reveal_strlit("ctrl+v");
        reveal_strlit("ctrl+a");
        reveal_strlit("ctrl+m");
        reveal_strlit("alt+f4");
        reveal_strlit("alt+tab");
        reveal_strlit("shift+alt+tab");
        reveal_strlit("ctrl+escape");
        reveal_strlit("ctrl+shift+escape");
        assert("arrowup"@.len() == 7 && "arrowup"@[0] == 'a' && "arrowup"@[1] == 'r' && "arrowup"@[5] == 'u');
        assert("arrowdown"@.len() == 9 && "arrowdown"@[0] == 'a' && "arrowdown"@[1] == 'r' && "arrowdown"@[5] == 'd' && "arrowdown"@[7] == 'w');
        assert("arrowleft"@.len() == 9 && "arrowleft"@[0] == 'a' && "arrowleft"@[1] == 'r' && "arrowleft"@[5] == 'l' && "arrowleft"@[7] == 'f');
        assert("arrowright"@.len() == 10 && "arrowright"@[0] == 'a' && "arrowright"@[1] == 'r' && "arrowright"@[5] == 'r' && "arrowright"@[7] == 'g');
        assert("alt+arrowup"@.len() == 11 && "alt+arrowup"@[0] == 'a' && "alt+arrowup"@[1] == 'l' && "alt+arrowup"@[5] == 'r' && "alt+arrowup"@[7] == 'o');
        assert("alt+arrowdown"@.len() == 13 && "alt+arrowdown"@[0] == 'a' && "alt+arrowdown"@[1] == 'l' && "alt+arrowdown"@[5] == 'r' && "alt+arrowdown"@[7] == 'o' && "alt+arrowdown"@[11] == 'w');
        assert("shift+arrowup"@.len() == 13 && "shift+arrowup"@[0] == 's' && "shift+arrowup"@[1] == 'h' && "shift+arrowup"@[5] == '+' && "shift+arrowup"@[7] == 'r' && "shift+arrowup"@[11] == 'u');
        assert("shift+arrowdown"@.len() == 15 && "shift+arrowdown"@[0] == 's' && "shift+arrowdown"@[1] == 'h' && "shift+arrowdown"@[5] == '+' && "shift+arrowdown"@[7] == 'r' && "shift+arrowdown"@[11] == 'd');
        assert("ctrl+o"@.len() == 6 && "ctrl+o"@[0] == 'c' && "ctrl+o"@[1] == 't' && "ctrl+o"@[5] == 'o');
        assert("ctrl+shift+o"@.len() == 12 && "ctrl+shift+o"@[0] == 'c' && "ctrl+shift+o"@[1] == 't' && "ctrl+shift+o"@[5] == 's' && "ctrl+shift+o"@[7] == 'i' && "ctrl+shift+o"@[11] == 'o');
        assert("ctrl+z"@.len() == 6 && "ctrl+z"@[0] == 'c' && "ctrl+z"@[1] == 't' && "ctrl+z"@[5] == 'z');
        assert("ctrl+shift+z"@.len() == 12 && "ctrl+shift+z"@[0] == 'c' && "ctrl+shift+z"@[1] == 't' && "ctrl+shift+z"@[5] == 's' && "ctrl+shift+z"@[7] == 'i' && "ctrl+shift+z"@[11] == 'z');
        assert("f"@.len() == 1 && "f"@[0] == 'f');
        assert("z"@.len() == 1 && "z"@[0] == 'z');
        assert("g"@.len() == 1 && "g"@[0] == 'g');
        assert("v"@.len() == 1 && "v"@[0] == 'v');
        assert("1"@.len() == 1 && "1"@[0] == '1');
        assert("2"@.len() == 1 && "2"@[0] == '2');
        assert("3"@.len() == 1 && "3"@[0] == '3');
        assert("4"@.len() == 1 && "4"@[0] == '4');
        assert("5"@.len() == 1 && "5"@[0] == '5');
        assert("x"@.len() == 1 && "x"@[0] == 'x');
        assert("shift+x"@.len() == 7 && "shift+x"@[0] == 's' && "shift+x"@[1] == 'h' && "shift+x"@[5] == '+');
        assert("p"@.len() == 1 && "p"@[0] == 'p');
        assert("u"@.len() == 1 && "u"@[0] == 'u');
        assert("0"@.len() == 1 && "0"@[0] == '0');
        assert("ctrl+alt+1"@.len() == 10 && "ctrl+alt+1"@[0] == 'c' && "ctrl+alt+1"@[1] == 't' && "ctrl+alt+1"@[5] == 'a' && "ctrl+alt+1"@[7] == 't');
        assert("ctrl+alt+2"@.len() == 10 && "ctrl+alt+2"@[0] == 'c' && "ctrl+alt+2"@[1] == 't' && "ctrl+alt+2"@[5] == 'a' && "ctrl+alt+2"@[7] == 't');
        assert("ctrl+alt+3"@.len() == 10 && "ctrl+alt+3"@[0] == 'c' && "ctrl+alt+3"@[1] == 't' && "ctrl+alt+3"@[5] == 'a' && "ctrl+alt+3"@[7] == 't');
        assert("ctrl+alt+4"@.len() == 10 && "ctrl+alt+4"@[0] == 'c' && "ctrl+alt+4"@[1] == 't' && "ctrl+alt+4"@[5] == 'a' && "ctrl+alt+4"@[7] == 't');
        assert("ctrl+alt+5"@.len() == 10 && "ctrl+alt+5"@[0] == 'c' && "ctrl+alt+5"@[1] == 't' && "ctrl+alt+5"@[5] == 'a' && "ctrl+alt+5"@[7] == 't');
        assert("ctrl+alt+6"@.len() == 10 && "ctrl+alt+6"@[0] == 'c' && "ctrl+alt+6"@[1] == 't' && "ctrl+alt+6"@[5] == 'a' && "ctrl+alt+6"@[7] == 't');
        assert("ctrl+alt+7"@.len() == 10 && "ctrl+alt+7"@[0] == 'c' && "ctrl+alt+7"@[1] == 't' && "ctrl+alt+7"@[5] == 'a' && "ctrl+alt+7"@[7] == 't');
        assert("ctrl+alt+0"@.len() == 10 && "ctrl+alt+0"@[0] == 'c' && "ctrl+alt+0"@[1] == 't' && "ctrl+alt+0"@[5] == 'a' && "ctrl+alt+0"@[7] == 't');
        assert("c"@.len() == 1 && "c"@[0] == 'c');
        assert("ctrl+,"@.len() == 6 && "ctrl+,"@[0] == 'c' && "ctrl+,"@[1] == 't' && "ctrl+,"@[5] == ',');
        assert("ctrl+x"@.len() == 6 && "ctrl+x"@[0] == 'c' && "ctrl+x"@[1] == 't' && "ctrl+x"@[5] == 'x');
        assert("ctrl+c"@.len() == 6 && "ctrl+c"@[0] == 'c' && "ctrl+c"@[1] == 't' && "ctrl+c"@[5] == 'c');
        assert("ctrl+v"@.len() == 6 && "ctrl+v"@[0] == 'c' && "ctrl+v"@[1] == 't' && "ctrl+v"@[5] == 'v');
        assert("ctrl+a"@.len() == 6 && "ctrl+a"@[0] == 'c' && "ctrl+a"@[1] == 't' && "ctrl+a"@[5] == 'a');
        assert("ctrl+m"@.len() == 6 && "ctrl+m"@[0] == 'c' && "ctrl+m"@[1] == 't' && "ctrl+m"@[5] == 'm');
        assert("alt+f4"@.len() == 6 && "alt+f4"@[0] == 'a' && "alt+f4"@[1] == 'l' && "alt+f4"@[5] == '4');
        assert("alt+tab"@.len() == 7 && "alt+tab"@[0] == 'a' && "alt+tab"@[1] == 'l' && "alt+tab"@[5] == 'a');
        assert("shift+alt+tab"@.len() == 13 && "shift+alt+tab"@[0] == 's' && "shift+alt+tab"@[1] == 'h' && "shift+alt+tab"@[5] == '+' && "shift+alt+tab"@[7] == 'l' && "shift+alt+tab"@[11] == 'a');
        assert("ctrl+escape"@.len() == 11 && "ctrl+escape"@[0] == 'c' && "ctrl+escape"@[1] == 't' && "ctrl+escape"@[5] == 'e' && "ctrl+escape"@[7] == 'c');
        assert("ctrl+shift+escape"@.len() == 17 && "ctrl+shift+escape"@[0] == 'c' && "ctrl+shift+escape"@[1] == 't' && "ctrl+shift+escape"@[5] == 's' && "ctrl+shift+escape"@[7] == 'i' && "ctrl+shift+escape"@[11] == 'e');
        reveal_strlit("meta+");
        assert("meta+"@.len() == 5 && "meta+"@[0] == 'm');
        assert("ctrl+shift+z"@.subrange(0, 5)[0] == "ctrl+shift+z"@[0] && "ctrl+shift+z"@[0] == 'c');
        assert("ctrl+shift+z"@.subrange(1, 6)[0] == "ctrl+shift+z"@[1] && "ctrl+shift+z"@[1] == 't');
        assert("ctrl+shift+z"@.subrange(2, 7)[0] == "ctrl+shift+z"@[2] && "ctrl+shift+z"@[2] == 'r');
        assert("ctrl+shift+z"@.subrange(3, 8)[0] == "ctrl+shift+z"@[3] && "ctrl+shift+z"@[3] == 'l');
        assert("ctrl+shift+z"@.subrange(4, 9)[0] == "ctrl+shift+z"@[4] && "ctrl+shift+z"@[4] == '+');
        assert("ctrl+shift+z"@.subrange(5, 10)[0] == "ctrl+shift+z"@[5] && "ctrl+shift+z"@[5] == 's');
        assert("ctrl+shift+z"@.subrange(6, 11)[0] == "ctrl+shift+z"@[6] && "ctrl+shift+z"@[6] == 'h');
        assert("ctrl+shift+z"@.subrange(7, 12)[0] == "ctrl+shift+z"@[7] && "ctrl+shift+z"@[7] == 'i');
        assert("shift+arrowup"@.subrange(0, 5)[0] == "shift+arrowup"@[0] && "shift+arrowup"@[0] == 's');
        assert("shift+arrowup"@.subrange(1, 6)[0] == "shift+arrowup"@[1] && "shift+arrowup"@[1] == 'h');
        assert("shift+arrowup"@.subrange(2, 7)[0] == "shift+arrowup"@[2] && "shift+arrowup"@[2] == 'i');
        assert("shift+arrowup"@.subrange(3, 8)[0] == "shift+arrowup"@[3] && "shift+arrowup"@[3] == 'f');
        assert("shift+arrowup"@.subrange(4, 9)[0] == "shift+arrowup"@[4] && "shift+arrowup"@[4] == 't');
        assert("shift+arrowup"@.subrange(5, 10)[0] == "shift+arrowup"@[5] && "shift+arrowup"@[5] == '+');
        assert("shift+arrowup"@.subrange(6, 11)[0] == "shift+arrowup"@[6] && "shift+arrowup"@[6] == 'a');
        assert("shift+arrowup"@.subrange(7, 12)[0] == "shift+arrowup"@[7] && "shift+arrowup"@[7] == 'r');
        assert("shift+arrowup"@.subrange(8, 13)[0] == "shift+arrowup"@[8] && "shift+arrowup"@[8] == 'r');
        assert("ctrl+z"@.subrange(0, 5)[0] == "ctrl+z"@[0] && "ctrl+z"@[0] == 'c');
        assert("ctrl+z"@.subrange(1, 6)[0] == "ctrl+z"@[1] && "ctrl+z"@[1] == 't');
        assert("ctrl+alt+2"@.subrange(0, 5)[0] == "ctrl+alt+2"@[0] && "ctrl+alt+2"@[0] == 'c');
        assert("ctrl+alt+2"@.subrange(1, 6)[0] == "ctrl+alt+2"@[1] && "ctrl+alt+2"@[1] == 't');
        assert("ctrl+alt+2"@.subrange(2, 7)[0] == "ctrl+alt+2"@[2] && "ctrl+alt+2"@[2] == 'r');
        assert("ctrl+alt+2"@.subrange(3, 8)[0] == "ctrl+alt+2"@[3] && "ctrl+alt+2"@[3] == 'l');
        assert("ctrl+alt+2"@.subrange(4, 9)[0] == "ctrl+alt+2"@[4] && "ctrl+alt+2"@[4] == '+');
        assert("ctrl+alt+2"@.subrange(5, 10)[0] == "ctrl+alt+2"@[5] && "ctrl+alt+2"@[5] == 'a');
        assert("ctrl+shift+o"@.subrange(0, 5)[0] == "ctrl+shift+o"@[0] && "ctrl+shift+o"@[0] == 'c');
        assert("ctrl+shift+o"@.subrange(1, 6)[0] == "ctrl+shift+o"@[1] && "ctrl+shift+o"@[1] == 't');
        assert("ctrl+shift+o"@.subrange(2, 7)[0] == "ctrl+shift+o"@[2] && "ctrl+shift+o"@[2] == 'r');
        assert("ctrl+shift+o"@.subrange(3, 8)[0] == "ctrl+shift+o"@[3] && "ctrl+shift+o"@[3] == 'l');
        assert("ctrl+shift+o"@.subrange(4, 9)[0] == "ctrl+shift+o"@[4] && "ctrl+shift+o"@[4] == '+');
        assert("ctrl+shift+o"@.subrange(5, 10)[0] == "ctrl+shift+o"@[5] && "ctrl+shift+o"@[5] == 's');
        assert("ctrl+shift+o"@.subrange(6, 11)[0] == "ctrl+shift+o"@[6] && "ctrl+shift+o"@[6] == 'h');
        assert("ctrl+shift+o"@.subrange(7, 12)[0] == "ctrl+shift+o"@[7] && "ctrl+shift+o"@[7] == 'i');
        assert("alt+arrowdown"@.subrange(0, 5)[0] == "alt+arrowdown"@[0] && "alt+arrowdown"@[0] == 'a');
        assert("alt+arrowdown"@.subrange(1, 6)[0] == "alt+arrowdown"@[1] && "alt+arrowdown"@[1] == 'l');
        assert("alt+arrowdown"@.subrange(2, 7)[0] == "alt+arrowdown"@[2] && "alt+arrowdown"@[2] == 't');
        assert("alt+arrowdown"@.subrange(3, 8)[0] == "alt+arrowdown"@[3] && "alt+arrowdown"@[3] == '+');
        assert("alt+arrowdown"@.subrange(4, 9)[0] == "alt+arrowdown"@[4] && "alt+arrowdown"@[4] == 'a');
        assert("alt+arrowdown"@.subrange(5, 10)[0] == "alt+arrowdown"@[5] && "alt+arrowdown"@[5] == 'r');
        assert("alt+arrowdown"@.subrange(6, 11)[0] == "alt+arrowdown"@[6] && "alt+arrowdown"@[6] == 'r');
        assert("alt+arrowdown"@.subrange(7, 12)[0] == "alt+arrowdown"@[7] && "alt+arrowdown"@[7] == 'o');
        assert("alt+arrowdown"@.subrange(8, 13)[0] == "alt+arrowdown"@[8] && "alt+arrowdown"@[8] == 'w');
        assert("arrowup"@.subrange(0, 5)[0] == "arrowup"@[0] && "arrowup"@[0] == 'a');
        assert("arrowup"@.subrange(1, 6)[0] == "arrowup"@[1] && "arrowup"@[1] == 'r');
        assert("arrowup"@.subrange(2, 7)[0] == "arrowup"@[2] && "arrowup"@[2] == 'r');
        assert("ctrl+alt+4"@.subrange(0, 5)[0] == "ctrl+alt+4"@[0] && "ctrl+alt+4"@[0] == 'c');
        assert("ctrl+alt+4"@.subrange(1, 6)[0] == "ctrl+alt+4"@[1] && "ctrl+alt+4"@[1] == 't');
        assert("ctrl+alt+4"@.subrange(2, 7)[0] == "ctrl+alt+4"@[2] && "ctrl+alt+4"@[2] == 'r');
        assert("ctrl+alt+4"@.subrange(3, 8)[0] == "ctrl+alt+4"@[3] && "ctrl+alt+4"@[3] == 'l');
        assert("ctrl+alt+4"@.subrange(4, 9)[0] == "ctrl+alt+4"@[4] && "ctrl+alt+4"@[4] == '+');
        assert("ctrl+alt+4"@.subrange(5, 10)[0] == "ctrl+alt+4"@[5] && "ctrl+alt+4"@[5] == 'a');
        assert("shift+arrowdown"@.subrange(0, 5)[0] == "shift+arrowdown"@[0] && "shift+arrowdown"@[0] == 's');
        assert("shift+arrowdown"@.subrange(1, 6)[0] == "shift+arrowdown"@[1] && "shift+arrowdown"@[1] == 'h');
        assert("shift+arrowdown"@.subrange(2, 7)[0] == "shift+arrowdown"@[2] && "shift+arrowdown"@[2] == 'i');
        assert("shift+arrowdown"@.subrange(3, 8)[0] == "shift+arrowdown"@[3] && "shift+arrowdown"@[3] == 'f');
        assert("shift+arrowdown"@.subrange(4, 9)[0] == "shift+arrowdown"@[4] && "shift+arrowdown"@[4] == 't');
        assert("shift+arrowdown"@.subrange(5, 10)[0] == "shift+arrowdown"@[5] && "shift+arrowdown"@[5] == '+');
        assert("shift+arrowdown"@.subrange(6, 11)[0] == "shift+arrowdown"@[6] && "shift+arrowdown"@[6] == 'a');
        assert("shift+arrowdown"@.subrange(7, 12)[0] == "shift+arrowdown"@[7] && "shift+arrowdown"@[7] == 'r');
        assert("shift+arrowdown"@.subrange(8, 13)[0] == "shift+arrowdown"@[8] && "shift+arrowdown"@[8] == 'r');
        assert("shift+arrowdown"@.subrange(9, 14)[0] == "shift+arrowdown"@[9] && "shift+arrowdown"@[9] == 'o');
        assert("shift+arrowdown"@.subrange(10, 15)[0] == "shift+arrowdown"@[10] && "shift+arrowdown"@[10] == 'w');
        assert("ctrl+o"@.subrange(0, 5)[0] == "ctrl+o"@[0] && "ctrl+o"@[0] == 'c');
        assert("ctrl+o"@.subrange(1, 6)[0] == "ctrl+o"@[1] && "ctrl+o"@[1] == 't');
        assert("shift+x"@.subrange(0, 5)[0] == "shift+x"@[0] && "shift+x"@[0] == 's');
        assert("shift+x"@.subrange(1, 6)[0] == "shift+x"@[1] && "shift+x"@[1] == 'h');
        assert("shift+x"@.subrange(2, 7)[0] == "shift+x"@[2] && "shift+x"@[2] == 'i');
        assert("arrowleft"@.subrange(0, 5)[0] == "arrowleft"@[0] && "arrowleft"@[0] == 'a');
        assert("arrowleft"@.subrange(1, 6)[0] == "arrowleft"@[1] && "arrowleft"@[1] == 'r');
        assert("arrowleft"@.subrange(2, 7)[0] == "arrowleft"@[2] && "arrowleft"@[2] == 'r');
        assert("arrowleft"@.subrange(3, 8)[0] == "arrowleft"@[3] && "arrowleft"@[3] == 'o');
        assert("arrowleft"@.subrange(4, 9)[0] == "arrowleft"@[4] && "arrowleft"@[4] == 'w');
        assert("alt+arrowup"@.subrange(0, 5)[0] == "alt+arrowup"@[0] && "alt+arrowup"@[0] == 'a');
        assert("alt+arrowup"@.subrange(1, 6)[0] == "alt+arrowup"@[1] && "alt+arrowup"@[1] == 'l');
        assert("alt+arrowup"@.subrange(2, 7)[0] == "alt+arrowup"@[2] && "alt+arrowup"@[2] == 't');
        assert("alt+arrowup"@.subrange(3, 8)[0] == "alt+arrowup"@[3] && "alt+arrowup"@[3] == '+');
        assert("alt+arrowup"@.subrange(4, 9)[0] == "alt+arrowup"@[4] && "alt+arrowup"@[4] == 'a');
        assert("alt+arrowup"@.subrange(5, 10)[0] == "alt+arrowup"@[5] && "alt+arrowup"@[5] == 'r');
        assert("alt+arrowup"@.subrange(6, 11)[0] == "alt+arrowup"@[6] && "alt+arrowup"@[6] == 'r');
        assert("arrowdown"@.subrange(0, 5)[0] == "arrowdown"@[0] && "arrowdown"@[0] == 'a');
        assert("arrowdown"@.subrange(1, 6)[0] == "arrowdown"@[1] && "arrowdown"@[1] == 'r');
        assert("arrowdown"@.subrange(2, 7)[0] == "arrowdown"@[2] && "arrowdown"@[2] == 'r');
        assert("arrowdown"@.subrange(3, 8)[0] == "arrowdown"@[3] && "arrowdown"@[3] == 'o');
        assert("arrowdown"@.subrange(4, 9)[0] == "arrowdown"@[4] && "arrowdown"@[4] == 'w');
        assert("ctrl+alt+1"@.subrange(0, 5)[0] == "ctrl+alt+1"@[0] && "ctrl+alt+1"@[0] == 'c');
        assert("ctrl+alt+1"@.subrange(1, 6)[0] == "ctrl+alt+1"@[1] && "ctrl+alt+1"@[1] == 't');
        assert("ctrl+alt+1"@.subrange(2, 7)[0] == "ctrl+alt+1"@[2] && "ctrl+alt+1"@[2] == 'r');
        assert("ctrl+alt+1"@.subrange(3, 8)[0] == "ctrl+alt+1"@[3] && "ctrl+alt+1"@[3] == 'l');
        assert("ctrl+alt+1"@.subrange(4, 9)[0] == "ctrl+alt+1"@[4] && "ctrl+alt+1"@[4] == '+');
        assert("ctrl+alt+1"@.subrange(5, 10)[0] == "ctrl+alt+1"@[5] && "ctrl+alt+1"@[5] == 'a');
        assert("arrowright"@.subrange(0, 5)[0] == "arrowright"@[0] && "arrowright"@[0] == 'a');
        assert("arrowright"@.subrange(1, 6)[0] == "arrowright"@[1] && "arrowright"@[1] == 'r');
        assert("arrowright"@.subrange(2, 7)[0] == "arrowright"@[2] && "arrowright"@[2] == 'r');
        assert("arrowright"@.subrange(3, 8)[0] == "arrowright"@[3] && "arrowright"@[3] == 'o');
        assert("arrowright"@.subrange(4, 9)[0] == "arrowright"@[4] && "arrowright"@[4] == 'w');
        assert("arrowright"@.subrange(5, 10)[0] == "arrowright"@[5] && "arrowright"@[5] == 'r');
        assert("ctrl+alt+3"@.subrange(0, 5)[0] == "ctrl+alt+3"@[0] && "ctrl+alt+3"@[0] == 'c');
        assert("ctrl+alt+3"@.subrange(1, 6)[0] == "ctrl+alt+3"@[1] && "ctrl+alt+3"@[1] == 't');
        assert("ctrl+alt+3"@.subrange(2, 7)[0] == "ctrl+alt+3"@[2] && "ctrl+alt+3"@[2] == 'r');
        assert("ctrl+alt+3"@.subrange(3, 8)[0] == "ctrl+alt+3"@[3] && "ctrl+alt+3"@[3] == 'l');
        assert("ctrl+alt+3"@.subrange(4, 9)[0] == "ctrl+alt+3"@[4] && "ctrl+alt+3"@[4] == '+');
        assert("ctrl+alt+3"@.subrange(5, 10)[0] == "ctrl+alt+3"@[5] && "ctrl+alt+3"@[5] == 'a');
        assert("ctrl+alt+7"@.subrange(0, 5)[0] == "ctrl+alt+7"@[0] && "ctrl+alt+7"@[0] == 'c');
        assert("ctrl+alt+7"@.subrange(1, 6)[0] == "ctrl+alt+7"@[1] && "ctrl+alt+7"@[1] == 't');
        assert("ctrl+alt+7"@.subrange(2, 7)[0] == "ctrl+alt+7"@[2] && "ctrl+alt+7"@[2] == 'r');
        assert("ctrl+alt+7"@.subrange(3, 8)[0] == "ctrl+alt+7"@[3] && "ctrl+alt+7"@[3] == 'l');
        assert("ctrl+alt+7"@.subrange(4, 9)[0] == "ctrl+alt+7"@[4] && "ctrl+alt+7"@[4] == '+');
        assert("ctrl+alt+7"@.subrange(5, 10)[0] == "ctrl+alt+7"@[5] && "ctrl+alt+7"@[5] == 'a');
        assert("ctrl+alt+6"@.subrange(0, 5)[0] == "ctrl+alt+6"@[0] && "ctrl+alt+6"@[0] == 'c');
        assert("ctrl+alt+6"@.subrange(1, 6)[0] == "ctrl+alt+6"@[1] && "ctrl+alt+6"@[1] == 't');
        assert("ctrl+alt+6"@.subrange(2, 7)[0] == "ctrl+alt+6"@[2] && "ctrl+alt+6"@[2] == 'r');
        assert("ctrl+alt+6"@.subrange(3, 8)[0] == "ctrl+alt+6"@[3] && "ctrl+alt+6"@[3] == 'l');
        assert("ctrl+alt+6"@.subrange(4, 9)[0] == "ctrl+alt+6"@[4] && "ctrl+alt+6"@[4] == '+');
        assert("ctrl+alt+6"@.subrange(5, 10)[0] == "ctrl+alt+6"@[5] && "ctrl+alt+6"@[5] == 'a');
        assert("ctrl+alt+5"@.subrange(0, 5)[0] == "ctrl+alt+5"@[0] && "ctrl+alt+5"@[0] == 'c');
        assert("ctrl+alt+5"@.subrange(1, 6)[0] == "ctrl+alt+5"@[1] && "ctrl+alt+5"@[1] == 't');
        assert("ctrl+alt+5"@.subrange(2, 7)[0] == "ctrl+alt+5"@[2] && "ctrl+alt+5"@[2] == 'r');
        assert("ctrl+alt+5"@.subrange(3, 8)[0] == "ctrl+alt+5"@[3] && "ctrl+alt+5"@[3] == 'l');
        assert("ctrl+alt+5"@.subrange(4, 9)[0] == "ctrl+alt+5"@[4] && "ctrl+alt+5"@[4] == '+');
        assert("ctrl+alt+5"@.subrange(5, 10)[0] == "ctrl+alt+5"@[5] && "ctrl+alt+5"@[5] == 'a');
        assert("ctrl+alt+0"@.subrange(0, 5)[0] == "ctrl+alt+0"@[0] && "ctrl+alt+0"@[0] == 'c');
        assert("ctrl+alt+0"@.subrange(1, 6)[0] == "ctrl+alt+0"@[1] && "ctrl+alt+0"@[1] == 't');
        assert("ctrl+alt+0"@.subrange(2, 7)[0] == "ctrl+alt+0"@[2] && "ctrl+alt+0"@[2] == 'r');
        assert("ctrl+alt+0"@.subrange(3, 8)[0] == "ctrl+alt+0"@[3] && "ctrl+alt+0"@[3] == 'l');
        assert("ctrl+alt+0"@.subrange(4, 9)[0] == "ctrl+alt+0"@[4] && "ctrl+alt+0"@[4] == '+');
        assert("ctrl+alt+0"@.subrange(5, 10)[0] == "ctrl+alt+0"@[5] && "ctrl+alt+0"@[5] == 'a');
    }
}

} // verus!

verus! {

/// Every default binding holds exactly one key.
proof fn lemma_default_keys_single(macos: bool)
    ensures
        default_bindings(macos).len() == action_count(),
        forall|i: int| 0 <= i < action_count() ==> (#[trigger] default_bindings(macos)[i]).1.len() == 1,
{
    let d = default_bindings(macos);
    assert forall|i: int| 0 <= i < action_count() implies (#[trigger] d[i]).1.len() == 1 by {
        assert(d.len() == 35);
    }
}

/// The default bindings are sound on either platform: no key bound to two
/// actions (no key bound twice at all), none forbidden, and one key each.
pub proof fn law_the_defaults_are_sound(macos: bool)
    ensures
        sound(default_bindings(macos), macos),
{
    let d = default_bindings(macos);
    lemma_default_keys_single(macos);
    lemma_default_keys_distinct(macos);
    lemma_default_keys_allowed(macos);
    assert forall|i: int, k: Name| 0 <= i < d.len() && #[trigger] d[i].1.contains(k) implies k
        == d[i].1[0] by {
        assert(d[i].1.len() == 1);
    }
    assert forall|i: int, j: int, k: Name|
        0 <= i < d.len() && 0 <= j < d.len() && d[i].0 != d[j].0 && #[trigger] d[i].1.contains(
            k,
        ) implies !#[trigger] d[j].1.contains(k) by {
        if d[j].1.contains(k) {
            assert(i != j);
            if i < j {
                assert(d[i].1[0] != d[j].1[0]);
            } else {
                assert(d[j].1[0] != d[i].1[0]);
            }
        }
    }
}

} // verus!

verus! {

/// The accelerator of the first of `keys` that converts to one.
pub open spec fn first_accelerator(keys: Seq<Name>) -> Option<Seq<char>>
    decreases keys.len(),
{
    if keys.len() == 0 {
        None
    } else if accelerator_of(keys[0]) is Some {
        accelerator_of(keys[0])
    } else {
        first_accelerator(keys.drop_first())
    }
}

impl Keymap {
    /// The accelerator of `action`'s menu item: the first of its keys, in
    /// stored order, that converts to one. `None` when no key converts, or
    /// for an unknown action.
    pub fn accelerator_for(&self, action: &str) -> (r: Option<String>)
        ensures
            match position(self.table(), action@) {
                Some(i) => match r {
                    Some(s) => first_accelerator(self.table()[i].1) == Some(s@),
                    None => first_accelerator(self.table()[i].1) is None,
                },
                None => r is None,
            },
    {
        proof {
            use_type_invariant(self);
        }
        let i = match self.index(action) {
            Ok(i) => i,
            Err(_) => {
                return None;
            },
        };
        proof {
            lemma_position(self.table(), action@);
        }
        let keys = &self.bindings[i].keys;
        let ghost ks = names(keys@);
        assert(ks == self.table()[i as int].1);
        let mut j: usize = 0;
        assert(ks.skip(0) =~= ks);
        while j < keys.len()
            invariant
                j <= keys@.len(),
                ks == names(keys@),
                ks == self.table()[i as int].1,
                position(self.table(), action@) == Some(i as int),
                first_accelerator(ks) == first_accelerator(ks.skip(j as int)),
            decreases keys@.len() - j,
        {
            assert(ks.skip(j as int)[0] == keys@[j as int]@);
            assert(ks.skip(j as int).drop_first() =~= ks.skip(j + 1));
            if let Some(a) = accelerator(keys[j].as_str()) {
                return Some(a);
            }
            j = j + 1;
        }
        assert(ks.skip(j as int) =~= Seq::<Name>::empty());
        None
    }
}

} // verus!
