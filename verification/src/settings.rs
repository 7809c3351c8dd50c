//! Reading the stored settings back, and picking the DxO PhotoLab install
//! to open a folder in.

use vstd::prelude::*;

use crate::exif::starts_with;
use crate::sidecar::ends_with;
use crate::text::{chars_of, same_str};

verus! {

/// The strip sort order a stored `sortOrder` value names.
pub open spec fn sort_order_named(value: Option<Seq<char>>) -> Seq<char> {
    match value {
        Some(v) => if v == "capture"@ {
            "capture"@
        } else if v == "rating"@ {
            "rating"@
        } else {
            "name"@
        },
        None => "name"@,
    }
}

/// The strip sort order a stored `sortOrder` value names; anything unknown
/// or missing is the default, file name order.
pub fn parse_sort_order(value: Option<&str>) -> (r: &'static str)
    ensures
        r@ == sort_order_named(
            match value {
                Some(v) => Some(v@),
                None => None,
            },
        ),
{
    match value {
        Some(v) => if same_str(v, "capture") {
            "capture"
        } else if same_str(v, "rating") {
            "rating"
        } else {
            "name"
        },
        None => "name",
    }
}

/// Every stored sort order reads back as itself, and every value reads as
/// one of the three orders.
pub proof fn law_a_sort_order_reads_back(value: Option<Seq<char>>)
    ensures
        sort_order_named(Some(sort_order_named(value))) == sort_order_named(value),
        sort_order_named(value) == "name"@ || sort_order_named(value) == "capture"@
            || sort_order_named(value) == "rating"@,
{
    reveal_strlit("name");
    reveal_strlit("capture");
    reveal_strlit("rating");
    assert("name"@ != "capture"@ && "name"@ != "rating"@) by {
        assert("name"@[0] != "capture"@[0]);
        assert("name"@[0] != "rating"@[0]);
    }
}

/// A stored setting's value as the logic reads it: a boolean, a string, or
/// anything else.
pub enum StoredValue {
    Bool(bool),
    Text(String),
    Other,
}

/// The stored `autoAdvance` value: on only for the boolean `true`; missing
/// or anything else (the string `"true"` too) means off.
pub fn auto_advance_setting(value: Option<&StoredValue>) -> (r: bool)
    ensures
        r == (value matches Some(v) && *v matches StoredValue::Bool(true)),
{
    match value {
        Some(StoredValue::Bool(b)) => *b,
        _ => false,
    }
}

/// Whether `c` is an ASCII digit.
pub open spec fn is_digit(c: char) -> bool {
    '0' <= c <= '9'
}

/// The number the ASCII digits of `s` spell.
pub open spec fn decimal_value(s: Seq<char>) -> int
    decreases s.len(),
{
    if s.len() == 0 {
        0
    } else {
        decimal_value(s.drop_last()) * 10 + (s.last() as int - '0' as int)
    }
}

/// The digits `str::parse::<u32>` reads from `s`: all of it but a leading
/// `+`.
pub open spec fn unsigned_digits(s: Seq<char>) -> Seq<char> {
    if s.len() > 0 && s[0] == '+' {
        s.drop_first()
    } else {
        s
    }
}

/// Whether every char of `d` is an ASCII digit.
pub open spec fn all_digit_chars(d: Seq<char>) -> bool {
    forall|i: int| 0 <= i < d.len() ==> is_digit(#[trigger] d[i])
}

/// What `str::parse::<u32>` reads from `s`: an optional `+`, then one or
/// more ASCII digits whose value fits in a `u32`.
pub open spec fn parsed_u32(s: Seq<char>) -> Option<u32> {
    let digits = unsigned_digits(s);
    if digits.len() > 0 && all_digit_chars(digits) && decimal_value(digits) <= u32::MAX {
        Some(decimal_value(digits) as u32)
    } else {
        None
    }
}

proof fn lemma_decimal_value_grows(s: Seq<char>, n: int)
    requires
        0 <= n <= s.len(),
        forall|i: int| 0 <= i < s.len() ==> is_digit(#[trigger] s[i]),
    ensures
        0 <= decimal_value(s.take(n)) <= decimal_value(s),
    decreases s.len(),
{
    if s.len() > 0 {
        if n == s.len() {
            assert(s.take(n) =~= s);
            lemma_decimal_value_grows(s.drop_last(), n - 1);
            assert(is_digit(s[s.len() - 1]));
        } else {
            assert(s.drop_last().take(n) =~= s.take(n));
            lemma_decimal_value_grows(s.drop_last(), n);
            assert(is_digit(s[s.len() - 1]));
        }
    } else {
        assert(s.take(n) =~= s);
    }
}

/// `str::parse::<u32>` of the chars `s`, `None` where it fails.
pub fn parse_u32(s: &Vec<char>) -> (r: Option<u32>)
    ensures
        r == parsed_u32(s@),
{
    let start: usize = if s.len() > 0 && s[0] == '+' {
        1
    } else {
        0
    };
    let ghost digits = if s@.len() > 0 && s@[0] == '+' {
        s@.drop_first()
    } else {
        s@
    };
    assert(digits =~= s@.skip(start as int));
    if start >= s.len() {
        return None;
    }
    let mut value: u64 = 0;
    let mut i: usize = start;
    assert(digits.take(0) =~= Seq::<char>::empty());
    while i < s.len()
        invariant
            start <= i <= s@.len(),
            digits == s@.skip(start as int),
            digits == unsigned_digits(s@),
            forall|j: int| 0 <= j < i - start ==> is_digit(#[trigger] digits[j]),
            value == decimal_value(digits.take(i - start)),
            value <= u32::MAX,
        decreases s@.len() - i,
    {
        let c = s[i];
        assert(digits[i - start] == c);
        if c < '0' || c > '9' {
            assert(!is_digit(digits[i - start]));
            assert(!all_digit_chars(digits));
            return None;
        }
        let ghost t = digits.take(i - start + 1);
        assert(t.drop_last() =~= digits.take(i - start));
        assert(t.last() == c);
        let d = (c as u32 - '0' as u32) as u64;
        let next = value * 10 + d;
        if next > 0xffff_ffff {
            proof {
                assert forall|j: int| 0 <= j < i - start + 1 implies is_digit(#[trigger] t[j]) by {
                    assert(t[j] == digits[j]);
                }
                if all_digit_chars(digits) {
                    lemma_decimal_value_grows(digits, i - start + 1);
                }
            }
            return None;
        }
        value = next;
        i = i + 1;
    }
    assert(digits.take(i - start) =~= digits);
    Some(value as u32)
}

/// The `DXOPhotoLab<N>.app` version a directory entry names, if it names
/// one.
pub open spec fn photolab_version(name: Seq<char>) -> Option<u32> {
    if starts_with(name, "DXOPhotoLab"@) && name.len() >= 15 && ends_with(name, ".app"@) {
        parsed_u32(name.subrange(11, name.len() - 4))
    } else {
        None
    }
}

/// Whether `a` comes before `b` in lexicographic order of their chars, as
/// `String`'s `<` orders them.
pub open spec fn text_less(a: Seq<char>, b: Seq<char>) -> bool
    decreases a.len(),
{
    if a.len() == 0 {
        b.len() > 0
    } else if b.len() == 0 {
        false
    } else if a[0] != b[0] {
        a[0] < b[0]
    } else {
        text_less(a.drop_first(), b.drop_first())
    }
}

/// The `(version, name)` pair `b` is at least `a`, as tuples order.
pub open spec fn pair_at_least(a: (u32, Seq<char>), b: (u32, Seq<char>)) -> bool {
    a.0 < b.0 || (a.0 == b.0 && !text_less(b.1, a.1))
}

/// What `newest_photolab` picks among `names`: the greatest
/// `(version, name)` of those naming a PhotoLab app, the last on a tie.
pub open spec fn newest_photolab_of(names: Seq<Seq<char>>) -> Option<(u32, Seq<char>)>
    decreases names.len(),
{
    if names.len() == 0 {
        None
    } else {
        let best = newest_photolab_of(names.drop_last());
        match photolab_version(names.last()) {
            Some(v) => match best {
                Some(b) => if pair_at_least(b, (v, names.last())) {
                    Some((v, names.last()))
                } else {
                    Some(b)
                },
                None => Some((v, names.last())),
            },
            None => best,
        }
    }
}

/// Whether `a` comes before `b` in lexicographic order of their chars.
pub(crate) fn chars_less(a: &Vec<char>, b: &Vec<char>) -> (r: bool)
    ensures
        r == text_less(a@, b@),
{
    let mut i: usize = 0;
    assert(a@.skip(0) =~= a@ && b@.skip(0) =~= b@);
    while i < a.len() && i < b.len()
        invariant
            i <= a@.len(),
            i <= b@.len(),
            text_less(a@, b@) == text_less(a@.skip(i as int), b@.skip(i as int)),
        decreases a@.len() - i,
    {
        let ghost x = a@.skip(i as int);
        let ghost y = b@.skip(i as int);
        assert(x[0] == a@[i as int] && y[0] == b@[i as int]);
        if a[i] != b[i] {
            return a[i] < b[i];
        }
        assert(x.drop_first() =~= a@.skip(i + 1));
        assert(y.drop_first() =~= b@.skip(i + 1));
        i = i + 1;
    }
    i < b.len()
}

/// The `DXOPhotoLab<N>.app` name with the highest `N` among `names`.
pub fn newest_photolab(names: Vec<String>) -> (r: Option<String>)
    ensures
        match newest_photolab_of(names@.map_values(|n: String| n@)) {
            Some(best) => r is Some && r.unwrap()@ == best.1,
            None => r is None,
        },
{
    let ghost all = names@.map_values(|n: String| n@);
    let mut best: Option<(u32, usize)> = None;
    let mut i: usize = 0;
    assert(all.take(0) =~= Seq::<Seq<char>>::empty());
    while i < names.len()
        invariant
            i <= names@.len(),
            all == names@.map_values(|n: String| n@),
            match newest_photolab_of(all.take(i as int)) {
                Some(b) => best matches Some(p) && p.1 < i && b == (p.0, all[p.1 as int]),
                None => best is None,
            },
        decreases names@.len() - i,
    {
        let ghost t = all.take(i + 1);
        assert(t.drop_last() =~= all.take(i as int));
        assert(t.last() == names@[i as int]@);
        let name = chars_of(names[i].as_str());
        let version = version_of(&name);
        match version {
            Some(v) => {
                match best {
                    Some((bv, bi)) => {
                        let current = chars_of(names[bi].as_str());
                        if bv < v || (bv == v && !chars_less(&name, &current)) {
                            best = Some((v, i));
                        }
                    },
                    None => {
                        best = Some((v, i));
                    },
                }
            },
            None => {},
        }
        i = i + 1;
    }
    assert(all.take(i as int) =~= all);
    match best {
        Some((_, bi)) => Some(names[bi].clone()),
        None => None,
    }
}

/// The PhotoLab version the chars `name` carry, as `photolab_version`.
fn version_of(name: &Vec<char>) -> (r: Option<u32>)
    ensures
        r == photolab_version(name@),
{
    if !(name.len() >= 15 && prefix_is(name, "DXOPhotoLab") && suffix_is(name, ".app")) {
        return None;
    }
    let mut middle: Vec<char> = Vec::new();
    let mut i: usize = 11;
    while i < name.len() - 4
        invariant
            name@.len() >= 15,
            11 <= i <= name@.len() - 4,
            middle@ == name@.subrange(11, i as int),
        decreases name@.len() - 4 - i,
    {
        middle.push(name[i]);
        assert(middle@ =~= name@.subrange(11, i + 1));
        i = i + 1;
    }
    parse_u32(&middle)
}

/// Whether `name` starts with `prefix`.
fn prefix_is(name: &Vec<char>, prefix: &str) -> (r: bool)
    ensures
        r == starts_with(name@, prefix@),
{
    let p = chars_of(prefix);
    if name.len() < p.len() {
        return false;
    }
    let mut i: usize = 0;
    while i < p.len()
        invariant
            p@ == prefix@,
            name@.len() >= p@.len(),
            i <= p@.len(),
            forall|j: int| 0 <= j < i ==> name@[j] == p@[j],
        decreases p@.len() - i,
    {
        if name[i] != p[i] {
            assert(name@.take(prefix@.len() as int)[i as int] != prefix@[i as int]);
            return false;
        }
        i = i + 1;
    }
    assert(name@.take(prefix@.len() as int) =~= prefix@);
    true
}

/// Whether `name` ends with `suffix`.
fn suffix_is(name: &Vec<char>, suffix: &str) -> (r: bool)
    ensures
        r == ends_with(name@, suffix@),
{
    let s = crate::text::string_of(name.as_slice());
    crate::sidecar::str_ends_with(s.as_str(), suffix)
}

} // verus!
