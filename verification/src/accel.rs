//! The muda accelerator string of a key name, for the menu items whose
//! shortcut follows the keymap.

use vstd::prelude::*;

use crate::text::{chars_of, concat, string_of, str_names};

verus! {

/// The parts of `s` between its `+` signs, as `str::split('+')` yields them.
pub open spec fn split_plus(s: Seq<char>) -> Seq<Seq<char>>
    decreases s.len(),
{
    if s.len() == 0 {
        seq![Seq::empty()]
    } else {
        let parts = split_plus(s.drop_last());
        if s.last() == '+' {
            parts.push(Seq::empty())
        } else {
            parts.update(parts.len() - 1, parts.last().push(s.last()))
        }
    }
}

proof fn lemma_split_plus_nonempty(s: Seq<char>)
    ensures
        split_plus(s).len() >= 1,
    decreases s.len(),
{
    if s.len() > 0 {
        lemma_split_plus_nonempty(s.drop_last());
    }
}

/// The modifiers in the order a key name holds them.
pub open spec fn modifier(m: int) -> Seq<char> {
    if m == 0 {
        "ctrl"@
    } else if m == 1 {
        "alt"@
    } else if m == 2 {
        "shift"@
    } else {
        "meta"@
    }
}

/// The accelerator's name of each modifier.
pub open spec fn modifier_label(m: int) -> Seq<char> {
    if m == 0 {
        "Ctrl"@
    } else if m == 1 {
        "Alt"@
    } else if m == 2 {
        "Shift"@
    } else {
        "Cmd"@
    }
}

/// Reading the modifiers from `m` on, starting at part `pos`: the part the
/// key is at, the labels of the modifiers read, and whether every one of them
/// was `shift` (or none was read).
pub open spec fn read_modifiers(parts: Seq<Seq<char>>, pos: int, m: int) -> (int, Seq<Seq<char>>, bool)
    decreases 4 - m,
{
    if m >= 4 {
        (pos, Seq::empty(), true)
    } else if 0 <= pos < parts.len() && parts[pos] == modifier(m) {
        let (at, labels, plain) = read_modifiers(parts, pos + 1, m + 1);
        (at, seq![modifier_label(m)] + labels, plain && m == 2)
    } else {
        read_modifiers(parts, pos, m + 1)
    }
}

/// The named keys and their accelerator names.
pub open spec fn named_keys() -> Seq<(Seq<char>, Seq<char>)> {
    seq![
        ("space"@, "Space"@), ("escape"@, "Escape"@), ("enter"@, "Enter"@), ("tab"@, "Tab"@),
        ("backspace"@, "Backspace"@), ("delete"@, "Delete"@), ("home"@, "Home"@), ("end"@, "End"@),
        ("pageup"@, "PageUp"@), ("pagedown"@, "PageDown"@), ("insert"@, "Insert"@),
        ("arrowup"@, "ArrowUp"@), ("arrowdown"@, "ArrowDown"@), ("arrowleft"@, "ArrowLeft"@),
        ("arrowright"@, "ArrowRight"@),
    ]
}

/// The name the first entry of `table` for `k` gives it.
pub open spec fn named(table: Seq<(Seq<char>, Seq<char>)>, k: Seq<char>) -> Option<Seq<char>>
    decreases table.len(),
{
    if table.len() == 0 {
        None
    } else if table[0].0 == k {
        Some(table[0].1)
    } else {
        named(table.drop_first(), k)
    }
}

/// The punctuation keys, named as they are.
pub open spec fn punctuation() -> Seq<Seq<char>> {
    seq!["-"@, "="@, ","@, "."@, "/"@, ";"@, "'"@, "["@, "]"@, "\\"@, "`"@]
}

/// Whether every char of `s` is an ASCII digit.
pub open spec fn all_digits(s: Seq<char>) -> bool {
    forall|i: int| 0 <= i < s.len() ==> '0' <= #[trigger] s[i] <= '9'
}

/// The number the ASCII digits of `s` spell.
pub open spec fn digits_value(s: Seq<char>) -> int
    decreases s.len(),
{
    if s.len() == 0 {
        0
    } else {
        digits_value(s.drop_last()) * 10 + (s.last() as int - '0' as int)
    }
}

/// The decimal digits of `n`, for `1..=99`.
pub open spec fn small_decimal(n: int) -> Seq<char> {
    if n < 10 {
        seq![('0' as int + n) as char]
    } else {
        seq![('0' as int + n / 10) as char, ('0' as int + n % 10) as char]
    }
}

/// The accelerator name of the key part `k`, if it has one.
pub open spec fn key_label(k: Seq<char>) -> Option<Seq<char>> {
    if let Some(label) = named(named_keys(), k) {
        Some(label)
    } else if punctuation().contains(k) {
        Some(k)
    } else if k.len() == 0 {
        None
    } else if k.len() > 1 {
        let n = k.drop_first();
        if k[0] == 'f' && n.len() > 0 && all_digits(n) && 1 <= digits_value(n) <= 24 {
            Some(seq!['F'] + small_decimal(digits_value(n)))
        } else {
            None
        }
    } else if ('a' <= k[0] <= 'z') || ('A' <= k[0] <= 'Z') {
        Some(seq![if 'a' <= k[0] <= 'z' { ((k[0] as int) - 32) as char } else { k[0] }])
    } else if '0' <= k[0] <= '9' {
        Some(k)
    } else {
        None
    }
}

/// The muda accelerator string for a key name: its modifiers (held in the
/// order `ctrl`, `alt`, `shift`, `meta`) and its key, joined by `+`; `None`
/// when the name has another shape, when muda has no accelerator for the key,
/// or when no `ctrl`, `alt` or `meta` is held.
pub open spec fn accelerator_of(key: Seq<char>) -> Option<Seq<char>> {
    let parts = split_plus(key);
    let (at, labels, plain) = read_modifiers(parts, 0, 0);
    if at >= parts.len() || at + 1 < parts.len() || plain {
        None
    } else {
        match key_label(parts[at]) {
            Some(label) => Some(labels.fold_right(|l: Seq<char>, acc: Seq<char>| l + "+"@ + acc, label)),
            None => None,
        }
    }
}

} // verus!

verus! {

/// The char sequences of a list of char vectors.
pub open spec fn seqs(v: Seq<Vec<char>>) -> Seq<Seq<char>> {
    v.map_values(|x: Vec<char>| x@)
}

/// The parts of `s` between its `+` signs.
fn split_on_plus(s: &Vec<char>) -> (r: Vec<Vec<char>>)
    ensures
        seqs(r@) == split_plus(s@),
{
    let mut parts: Vec<Vec<char>> = Vec::new();
    let mut current: Vec<char> = Vec::new();
    let mut i: usize = 0;
    assert(s@.take(0) =~= Seq::<char>::empty());
    while i < s.len()
        invariant
            i <= s@.len(),
            seqs(parts@).push(current@) == split_plus(s@.take(i as int)),
        decreases s@.len() - i,
    {
        let c = s[i];
        assert(s@.take(i + 1).drop_last() =~= s@.take(i as int));
        let ghost before = seqs(parts@).push(current@);
        if c == '+' {
            let done = current;
            let ghost old_parts = parts@;
            parts.push(done);
            current = Vec::new();
            assert(seqs(parts@) =~= seqs(old_parts).push(done@));
            assert(seqs(parts@).push(current@) =~= before.push(Seq::empty()));
        } else {
            let ghost old_current = current@;
            current.push(c);
            assert(seqs(parts@).push(current@) =~= before.update(
                before.len() - 1,
                before.last().push(c),
            ));
        }
        i = i + 1;
    }
    assert(s@.take(i as int) =~= s@);
    let ghost old_parts = parts@;
    parts.push(current);
    assert(seqs(parts@) =~= seqs(old_parts).push(current@));
    parts
}

/// Whether `v` holds the chars of `lit`.
fn is(v: &Vec<char>, lit: &str) -> (r: bool)
    ensures
        r == (v@ == lit@),
{
    let l = chars_of(lit);
    crate::text::same_chars(v.as_slice(), l.as_slice())
}

/// The name the first entry of the named-key table gives `k`.
fn named_key(k: &Vec<char>) -> (r: Option<&'static str>)
    ensures
        match r {
            Some(label) => named(named_keys(), k@) == Some(label@),
            None => named(named_keys(), k@) is None,
        },
{
    let table = vec![
        ("space", "Space"), ("escape", "Escape"), ("enter", "Enter"), ("tab", "Tab"),
        ("backspace", "Backspace"), ("delete", "Delete"), ("home", "Home"), ("end", "End"),
        ("pageup", "PageUp"), ("pagedown", "PageDown"), ("insert", "Insert"),
        ("arrowup", "ArrowUp"), ("arrowdown", "ArrowDown"), ("arrowleft", "ArrowLeft"),
        ("arrowright", "ArrowRight"),
    ];
    let ghost t = table@.map_values(|e: (&str, &str)| (e.0@, e.1@));
    assert(t =~= named_keys());
    let mut i: usize = 0;
    assert(t.skip(0) =~= t);
    while i < table.len()
        invariant
            i <= table@.len(),
            t == table@.map_values(|e: (&str, &str)| (e.0@, e.1@)),
            t == named_keys(),
            named(t, k@) == named(t.skip(i as int), k@),
        decreases table@.len() - i,
    {
        assert(t.skip(i as int)[0] == t[i as int]);
        assert(t.skip(i as int).drop_first() =~= t.skip(i + 1));
        if is(k, table[i].0) {
            assert(t[i as int] == (table@[i as int].0@, table@[i as int].1@));
            assert(named(t.skip(i as int), k@) == Some(t[i as int].1));
            return Some(table[i].1);
        }
        i = i + 1;
    }
    assert(t.skip(i as int) =~= Seq::<(Seq<char>, Seq<char>)>::empty());
    None
}

} // verus!

verus! {

proof fn lemma_digits_value_grows(s: Seq<char>)
    requires
        all_digits(s),
    ensures
        digits_value(s) >= 0,
    decreases s.len(),
{
    if s.len() > 0 {
        assert forall|i: int| 0 <= i < s.len() - 1 implies '0' <= #[trigger] s.drop_last()[i] <= '9' by {
            assert(s.drop_last()[i] == s[i]);
        }
        lemma_digits_value_grows(s.drop_last());
        assert('0' <= s[s.len() - 1] <= '9');
    }
}

/// The number the chars of `k` after the first spell, when they are all
/// digits and it is `1..=24`.
fn function_number(k: &Vec<char>) -> (r: Option<u8>)
    requires
        k@.len() > 1,
    ensures
        match r {
            Some(n) => all_digits(k@.drop_first()) && digits_value(k@.drop_first()) == n as int && 1
                <= n <= 24,
            None => !(all_digits(k@.drop_first()) && 1 <= digits_value(k@.drop_first()) <= 24),
        },
{
    let ghost n = k@.drop_first();
    let mut value: u8 = 0;
    let mut i: usize = 1;
    assert(n.take(0) =~= Seq::<char>::empty());
    while i < k.len()
        invariant
            1 <= i <= k@.len(),
            n == k@.drop_first(),
            all_digits(n.take(i - 1)),
            value <= 25,
            value < 25 ==> digits_value(n.take(i - 1)) == value as int,
            value == 25 ==> digits_value(n.take(i - 1)) > 24,
        decreases k@.len() - i,
    {
        let c = k[i];
        assert(n.take(i as int).drop_last() =~= n.take(i - 1));
        assert(n.take(i as int).last() == c);
        if c < '0' || c > '9' {
            assert(!all_digits(n)) by {
                assert(n[i - 1] == c);
            }
            return None;
        }
        assert forall|j: int| 0 <= j < n.take(i as int).len() implies '0' <= #[trigger] n.take(
            i as int,
        )[j] <= '9' by {
            if j < i - 1 {
                assert(n.take(i as int)[j] == n.take(i - 1)[j]);
            }
        }
        let d = (c as u32 - '0' as u32) as u8;
        proof {
            lemma_digits_value_grows(n.take(i - 1));
        }
        if value < 25 {
            let next = value as u32 * 10 + d as u32;
            value = if next > 24 { 25 } else { next as u8 };
        }
        i = i + 1;
    }
    assert(n.take(i - 1) =~= n);
    if value >= 1 && value <= 24 {
        Some(value)
    } else {
        None
    }
}

/// The chars of `F` and the number `n`, for `1..=24`.
fn function_label(n: u8) -> (r: Vec<char>)
    requires
        1 <= n <= 24,
    ensures
        r@ == seq!['F'] + small_decimal(n as int),
{
    let mut r: Vec<char> = Vec::new();
    r.push('F');
    if n < 10 {
        r.push(char_of_digit(n));
    } else {
        r.push(char_of_digit(n / 10));
        r.push(char_of_digit(n % 10));
    }
    assert(r@ =~= seq!['F'] + small_decimal(n as int));
    r
}

/// The ASCII digit of `d`.
fn char_of_digit(d: u8) -> (c: char)
    requires
        d <= 9,
    ensures
        c == ('0' as int + d) as char,
{
    let digits = ['0', '1', '2', '3', '4', '5', '6', '7', '8', '9'];
    let c = digits[d as usize];
    assert(c == ('0' as int + d) as char) by {
        assert(d == 0 || d == 1 || d == 2 || d == 3 || d == 4 || d == 5 || d == 6 || d == 7 || d
            == 8 || d == 9);
    }
    c
}

/// Whether `k` is one of the punctuation keys.
fn is_punctuation(k: &Vec<char>) -> (r: bool)
    ensures
        r == punctuation().contains(k@),
{
    let list = vec!["-", "=", ",", ".", "/", ";", "'", "[", "]", "\\", "`"];
    assert(str_names(list@) =~= punctuation());
    let s = string_of(k.as_slice());
    crate::text::list_has(&list, s.as_str())
}

/// The accelerator name of the key part `k`.
fn label_of(k: &Vec<char>) -> (r: Option<Vec<char>>)
    ensures
        match r {
            Some(v) => key_label(k@) == Some(v@),
            None => key_label(k@) is None,
        },
{
    if let Some(label) = named_key(k) {
        return Some(chars_of(label));
    }
    if is_punctuation(k) {
        return Some(clone_chars(k));
    }
    if k.len() == 0 {
        return None;
    }
    if k.len() > 1 {
        if k[0] == 'f' {
            if let Some(n) = function_number(k) {
                return Some(function_label(n));
            }
        }
        return None;
    }
    let c = k[0];
    if ('a' <= c && c <= 'z') || ('A' <= c && c <= 'Z') {
        let mut v: Vec<char> = Vec::new();
        if 'a' <= c && c <= 'z' {
            v.push(upper(c));
        } else {
            v.push(c);
        }
        assert(v@ =~= seq![if 'a' <= c <= 'z' { ((c as int) - 32) as char } else { c }]);
        return Some(v);
    }
    if '0' <= c && c <= '9' {
        return Some(clone_chars(k));
    }
    None
}

/// The upper-case letter of `c`, for `a..=z`.
fn upper(c: char) -> (r: char)
    requires
        'a' <= c <= 'z',
    ensures
        r == ((c as int) - 32) as char,
{
    let letters = [
        'A', 'B', 'C', 'D', 'E', 'F', 'G', 'H', 'I', 'J', 'K', 'L', 'M', 'N', 'O', 'P', 'Q', 'R',
        'S', 'T', 'U', 'V', 'W', 'X', 'Y', 'Z',
    ];
    let i = (c as u32 - 'a' as u32) as usize;
    let r = letters[i];
    assert(r == ((c as int) - 32) as char) by {
        assert(letters@ =~= seq![
            'A', 'B', 'C', 'D', 'E', 'F', 'G', 'H', 'I', 'J', 'K', 'L', 'M', 'N', 'O', 'P', 'Q',
            'R', 'S', 'T', 'U', 'V', 'W', 'X', 'Y', 'Z',
        ]);
    }
    r
}

/// A copy of `v`.
fn clone_chars(v: &Vec<char>) -> (r: Vec<char>)
    ensures
        r@ == v@,
{
    let mut r: Vec<char> = Vec::new();
    let mut i: usize = 0;
    while i < v.len()
        invariant
            i <= v@.len(),
            r@ == v@.take(i as int),
        decreases v@.len() - i,
    {
        r.push(v[i]);
        assert(r@ =~= v@.take(i + 1));
        i = i + 1;
    }
    assert(v@.take(i as int) =~= v@);
    r
}

} // verus!

verus! {

/// The literal of modifier `m`, as `modifier(m)` names it.
fn modifier_name(m: usize) -> (r: &'static str)
    requires
        m < 4,
    ensures
        r@ == modifier(m as int),
{
    if m == 0 {
        "ctrl"
    } else if m == 1 {
        "alt"
    } else if m == 2 {
        "shift"
    } else {
        "meta"
    }
}

/// The accelerator label of modifier `m`.
fn modifier_text(m: usize) -> (r: &'static str)
    requires
        m < 4,
    ensures
        r@ == modifier_label(m as int),
{
    if m == 0 {
        "Ctrl"
    } else if m == 1 {
        "Alt"
    } else if m == 2 {
        "Shift"
    } else {
        "Cmd"
    }
}

/// The labels joined by `+`, then `+` and the key's label.
pub open spec fn join_plus(labels: Seq<Seq<char>>, label: Seq<char>) -> Seq<char> {
    labels.fold_right(|l: Seq<char>, acc: Seq<char>| l + "+"@ + acc, label)
}

/// The muda accelerator string for a key name, or `None` when muda has no
/// accelerator for it. A key held with no `ctrl`, `alt` or `meta` is `None`
/// too: a modifier-less key equivalent would fire on every such key typed
/// anywhere, text fields included.
pub fn accelerator(key: &str) -> (r: Option<String>)
    ensures
        match r {
            Some(s) => accelerator_of(key@) == Some(s@),
            None => accelerator_of(key@) is None,
        },
{
    let chars = chars_of(key);
    let parts = split_on_plus(&chars);
    let ghost ps = split_plus(key@);
    assert(seqs(parts@) == ps);
    proof {
        lemma_split_plus_nonempty(key@);
    }
    let mut labels: Vec<&'static str> = Vec::new();
    let mut pos: usize = 0;
    let mut plain = true;
    let mut m: usize = 0;
    while m < 4
        invariant
            seqs(parts@) == ps,
            m <= 4,
            pos <= parts@.len(),
            ({
                let (at, rest, p) = read_modifiers(ps, pos as int, m as int);
                read_modifiers(ps, 0, 0) == (at, str_names(labels@) + rest, plain && p)
            }),
        decreases 4 - m,
    {
        let name = modifier_name(m);
        if pos < parts.len() && is(&parts[pos], name) {
            assert(ps[pos as int] == parts@[pos as int]@);
            let ghost before = labels@;
            labels.push(modifier_text(m));
            assert(str_names(labels@) =~= str_names(before).push(modifier_label(m as int)));
            let ghost (at, rest, p) = read_modifiers(ps, pos + 1, m + 1);
            assert(seq![modifier_label(m as int)] + rest =~= seq![modifier_label(m as int)] + rest);
            assert(str_names(before) + (seq![modifier_label(m as int)] + rest) =~= str_names(
                labels@,
            ) + rest);
            plain = plain && m == 2;
            pos = pos + 1;
        } else {
            assert(!(0 <= pos < ps.len() && ps[pos as int] == modifier(m as int))) by {
                if pos < parts.len() {
                    assert(ps[pos as int] == parts@[pos as int]@);
                }
            }
        }
        m = m + 1;
    }
    assert(str_names(labels@) + Seq::<Seq<char>>::empty() =~= str_names(labels@));
    if pos >= parts.len() || pos + 1 < parts.len() || plain {
        return None;
    }
    assert(ps[pos as int] == parts@[pos as int]@);
    let label = match label_of(&parts[pos]) {
        Some(l) => l,
        None => {
            return None;
        },
    };
    let mut acc = string_of(label.as_slice());
    let mut i: usize = labels.len();
    let ghost all = str_names(labels@);
    assert(all.take(i as int) =~= all);
    while i > 0
        invariant
            i <= labels@.len(),
            all == str_names(labels@),
            join_plus(all, label@) == join_plus(all.take(i as int), acc@),
        decreases i,
    {
        let prefix = concat(labels[i - 1], "+");
        let ghost old_acc = acc@;
        acc = concat(prefix.as_str(), acc.as_str());
        let ghost t = all.take(i as int);
        assert(t.drop_last() =~= all.take(i - 1));
        assert(t.last() == labels@[i - 1]@);
        assert(acc@ == t.last() + "+"@ + old_acc);
        i = i - 1;
    }
    assert(all.take(0) =~= Seq::<Seq<char>>::empty());
    Some(acc)
}

} // verus!
