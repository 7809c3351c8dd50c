//! The sidecar format rules: which format a stored setting names, which
//! single-file formats it covers, which directory entries are sidecars, which
//! of a file's sidecars is the effective one, and how long a failed write
//! waits before it is retried.

use vstd::prelude::*;

use crate::text::same_str;

verus! {

/// Which sidecar Riffle reads and writes. `Xmp` and `Dop` are one format
/// each, whose other format's files are neither read nor written; `Both`
/// writes every judgment to both and reads back the one modified last.
#[derive(Clone, Copy, Debug, PartialEq, Eq, Structural)]
pub enum SidecarFormat {
    Xmp,
    Dop,
    Both,
}

impl Default for SidecarFormat {
    fn default() -> (r: SidecarFormat)
        ensures
            r == SidecarFormat::Xmp,
    {
        SidecarFormat::Xmp
    }
}

/// The format a stored `sidecarFormat` value names.
pub open spec fn format_named(value: Option<Seq<char>>) -> SidecarFormat {
    match value {
        Some(v) => if v == "dop"@ {
            SidecarFormat::Dop
        } else if v == "both"@ {
            SidecarFormat::Both
        } else {
            SidecarFormat::Xmp
        },
        None => SidecarFormat::Xmp,
    }
}

/// The value stored under `sidecarFormat` for a format.
pub open spec fn setting_of(format: SidecarFormat) -> Seq<char> {
    match format {
        SidecarFormat::Xmp => "xmp"@,
        SidecarFormat::Dop => "dop"@,
        SidecarFormat::Both => "both"@,
    }
}

/// The single-file formats a format covers, XMP first.
pub open spec fn kinds_of(format: SidecarFormat) -> Seq<SidecarFormat> {
    match format {
        SidecarFormat::Xmp => seq![SidecarFormat::Xmp],
        SidecarFormat::Dop => seq![SidecarFormat::Dop],
        SidecarFormat::Both => seq![SidecarFormat::Xmp, SidecarFormat::Dop],
    }
}

impl SidecarFormat {
    /// The format a stored `sidecarFormat` value names; anything but `"dop"`
    /// or `"both"` (missing, unknown) is `Xmp`.
    pub fn from_setting(value: Option<&str>) -> (r: SidecarFormat)
        ensures
            r == format_named(
                match value {
                    Some(v) => Some(v@),
                    None => None,
                },
            ),
    {
        match value {
            Some(v) => if same_str(v, "dop") {
                SidecarFormat::Dop
            } else if same_str(v, "both") {
                SidecarFormat::Both
            } else {
                SidecarFormat::Xmp
            },
            None => SidecarFormat::Xmp,
        }
    }

    /// The value stored under `sidecarFormat` for this format.
    pub fn setting(self) -> (r: &'static str)
        ensures
            r@ == setting_of(self),
    {
        match self {
            SidecarFormat::Xmp => "xmp",
            SidecarFormat::Dop => "dop",
            SidecarFormat::Both => "both",
        }
    }

    /// The single-file formats this setting covers, XMP first; the order is
    /// the tie-break of `newest`.
    pub fn kinds(self) -> (r: Vec<SidecarFormat>)
        ensures
            r@ == kinds_of(self),
    {
        let mut r: Vec<SidecarFormat> = Vec::new();
        match self {
            SidecarFormat::Xmp => r.push(SidecarFormat::Xmp),
            SidecarFormat::Dop => r.push(SidecarFormat::Dop),
            SidecarFormat::Both => {
                r.push(SidecarFormat::Xmp);
                r.push(SidecarFormat::Dop);
            },
        }
        assert(r@ =~= kinds_of(self));
        r
    }
}

/// A format's stored value names that format again.
pub proof fn law_a_stored_format_reads_back(format: SidecarFormat)
    ensures
        format_named(Some(setting_of(format))) == format,
{
    reveal_strlit("xmp");
    reveal_strlit("dop");
    reveal_strlit("both");
    assert("xmp"@ != "dop"@ && "xmp"@ != "both"@ && "dop"@ != "both"@) by {
        assert("xmp"@[0] != "dop"@[0]);
        assert("xmp"@[0] != "both"@[0]);
        assert("dop"@[0] != "both"@[0]);
    }
}

/// Every format's kinds are single-file formats, one or two of them, and
/// each names itself again.
pub proof fn law_kinds_are_single_file_formats(format: SidecarFormat)
    ensures
        1 <= kinds_of(format).len() <= 2,
        forall|i: int|
            0 <= i < kinds_of(format).len() ==> #[trigger] kinds_of(format)[i]
                != SidecarFormat::Both && kinds_of(kinds_of(format)[i]) == seq![
                kinds_of(format)[i],
            ],
        format != SidecarFormat::Both ==> kinds_of(format) == seq![format],
{
}

} // verus!

verus! {

/// `s` with its ASCII upper-case letters lower-cased.
pub open spec fn ascii_lower(s: Seq<char>) -> Seq<char> {
    s.map_values(|c: char| if 'A' <= c <= 'Z' { ((c as int) + 32) as char } else { c })
}

/// Whether `s` is one path component with no separator or drive prefix on
/// any platform: no `/`, `\` or `:`.
pub open spec fn simple_name(s: Seq<char>) -> bool {
    forall|i: int| 0 <= i < s.len() ==> #[trigger] s[i] != '/' && s[i] != '\\' && s[i] != ':'
}

/// The index of the last `.` in `s`.
pub open spec fn last_dot(s: Seq<char>) -> Option<int>
    decreases s.len(),
{
    if s.len() == 0 {
        None
    } else if s.last() == '.' {
        Some(s.len() - 1)
    } else {
        last_dot(s.drop_last())
    }
}

/// The extension of a one-component path `s`: what follows its last `.`,
/// when something precedes that `.`; none for `""`, `"."` and `".."`, which
/// name no file.
pub open spec fn entry_extension(s: Seq<char>) -> Option<Seq<char>> {
    if s.len() == 0 || s == "."@ || s == ".."@ {
        None
    } else {
        match last_dot(s) {
            Some(i) => if i == 0 {
                None
            } else {
                Some(s.subrange(i + 1, s.len() as int))
            },
            None => None,
        }
    }
}

/// The final component of a one-component path `s`: `s` itself, except for
/// `""`, `"."` and `".."`.
pub open spec fn entry_file_name(s: Seq<char>) -> Option<Seq<char>> {
    if s.len() == 0 || s == "."@ || s == ".."@ {
        None
    } else {
        Some(s)
    }
}

/// The view of an optional string.
pub open spec fn opt_view(o: Option<String>) -> Option<Seq<char>> {
    match o {
        Some(s) => Some(s@),
        None => None,
    }
}

/// The extension of the file name `name`, by the rule `Path::extension`
/// documents for a file name: what follows its last `.`, none when it has
/// no `.` or its only `.` starts it, and none for `.` and `..`.
pub fn name_extension(name: &str) -> (r: Option<String>)
    ensures
        opt_view(r) == entry_extension(name@),
{
    proof {
        reveal_strlit(".");
        reveal_strlit("..");
    }
    let c = crate::text::chars_of(name);
    let n = c.len();
    if n == 0 || (n == 1 && c[0] == '.') || (n == 2 && c[0] == '.' && c[1] == '.') {
        proof {
            if n == 1 {
                assert(c@ =~= "."@);
            }
            if n == 2 {
                assert(c@ =~= ".."@);
            }
        }
        return None;
    }
    assert(name@ != "."@ && name@ != ".."@) by {
        if name@ == "."@ {
            assert(c@[0] == '.');
        }
        if name@ == ".."@ {
            assert(c@[0] == '.' && c@[1] == '.');
        }
    }
    let mut i: usize = n;
    assert(c@.take(n as int) =~= c@);
    while i > 0
        invariant
            i <= n,
            n == c@.len(),
            c@ == name@,
            name@.len() > 0 && name@ != "."@ && name@ != ".."@,
            last_dot(c@) == last_dot(c@.take(i as int)),
        decreases i,
    {
        if c[i - 1] == '.' {
            assert(c@.take(i as int).last() == '.');
            if i == 1 {
                return None;
            }
            let mut ext: Vec<char> = Vec::new();
            let mut k: usize = i;
            while k < n
                invariant
                    i <= k <= n,
                    n == c@.len(),
                    c@ == name@,
                    2 <= i,
                    name@.len() > 0 && name@ != "."@ && name@ != ".."@,
                    last_dot(c@) == Some((i - 1) as int),
                    ext@ == c@.subrange(i as int, k as int),
                decreases n - k,
            {
                ext.push(c[k]);
                assert(ext@ =~= c@.subrange(i as int, k + 1));
                k = k + 1;
            }
            return Some(crate::text::string_of(ext.as_slice()));
        }
        assert(c@.take(i as int).drop_last() =~= c@.take(i - 1));
        i = i - 1;
    }
    assert(c@.take(0) =~= Seq::<char>::empty());
    None
}

/// Whether `s` holds no `\` and no `:` and does not start with `//`, so
/// that every platform reads it as `/`-separated components with no prefix:
/// Windows reads `//server/share` as a network share and `//./x` as a
/// device.
pub open spec fn portable_path(s: Seq<char>) -> bool {
    &&& forall|i: int| 0 <= i < s.len() ==> #[trigger] s[i] != '\\' && s[i] != ':'
    &&& !(s.len() >= 2 && s[0] == '/' && s[1] == '/')
}

/// What follows the last `/` of `s` (all of `s` when it has none).
pub open spec fn after_last_slash(s: Seq<char>) -> Seq<char>
    decreases s.len(),
{
    if s.len() == 0 {
        s
    } else if s.last() == '/' {
        Seq::empty()
    } else {
        after_last_slash(s.drop_last()).push(s.last())
    }
}

/// The final component of a `/`-separated path, when it ends in a name:
/// not empty (a trailing `/`), and not `.` or `..`.
pub open spec fn final_name(s: Seq<char>) -> Option<Seq<char>> {
    let t = after_last_slash(s);
    if t.len() > 0 && t != "."@ && t != ".."@ {
        Some(t)
    } else {
        None
    }
}

/// What follows the last `/` of `s` ends it, right after that `/`.
pub(crate) proof fn lemma_after_last_slash(s: Seq<char>)
    ensures
        ({
            let t = crate::sidecar::after_last_slash(s);
            &&& t.len() <= s.len()
            &&& s.subrange(s.len() - t.len(), s.len() as int) == t
            &&& t.len() < s.len() ==> s[s.len() - t.len() - 1] == '/'
        }),
    decreases s.len(),
{
    if s.len() > 0 && s.last() != '/' {
        lemma_after_last_slash(s.drop_last());
        let t = crate::sidecar::after_last_slash(s.drop_last());
        assert(s.subrange(s.len() - t.len() - 1, s.len() as int) =~= s.drop_last().subrange(
            s.len() - 1 - t.len(),
            s.len() - 1,
        ).push(s.last()));
    } else if s.len() > 0 {
        assert(s.subrange(s.len() as int, s.len() as int) =~= Seq::<char>::empty());
    }
}

/// `Path::file_name` of the path `path`, as a string. A path with a `\` or
/// a `:` is read as its platform reads it, and so is one ending in a
/// separator or in `.` or `..`; the contract pins the result down for the
/// others, for the one-component names, and for the root `/`, which has
/// none.
#[verifier::external_body]
fn path_file_name(path: &str) -> (r: Option<String>)
    ensures
        simple_name(path@) ==> opt_view(r) == entry_file_name(path@),
        portable_path(path@) && final_name(path@) is Some ==> opt_view(r) == final_name(path@),
        path@ == "/"@ ==> r is None,
{
    std::path::Path::new(path).file_name().map(|n| n.to_string_lossy().into_owned())
}

/// The file name of the path `path`, as `Path::file_name` reads it.
pub fn file_name_of(path: &str) -> (r: Option<String>)
    ensures
        simple_name(path@) ==> opt_view(r) == entry_file_name(path@),
        portable_path(path@) && final_name(path@) is Some ==> opt_view(r) == final_name(path@),
        path@ == "/"@ ==> r is None,
{
    path_file_name(path)
}

/// `s` with its ASCII upper-case letters lower-cased.
pub fn to_ascii_lower(s: &str) -> (r: String)
    ensures
        r@ == ascii_lower(s@),
{
    let chars = crate::text::chars_of(s);
    let mut out: Vec<char> = Vec::new();
    let mut i: usize = 0;
    while i < chars.len()
        invariant
            chars@ == s@,
            i <= chars@.len(),
            out@ == ascii_lower(s@).take(i as int),
        decreases chars@.len() - i,
    {
        let c = chars[i];
        let d = if 'A' <= c && c <= 'Z' {
            lower_letter(c)
        } else {
            c
        };
        out.push(d);
        assert(out@ =~= ascii_lower(s@).take(i + 1));
        i = i + 1;
    }
    assert(out@ =~= ascii_lower(s@));
    crate::text::string_of(out.as_slice())
}

/// The lower-case letter of `c`, for `A..=Z`.
fn lower_letter(c: char) -> (r: char)
    requires
        'A' <= c <= 'Z',
    ensures
        r == ((c as int) + 32) as char,
{
    let letters = [
        'a', 'b', 'c', 'd', 'e', 'f', 'g', 'h', 'i', 'j', 'k', 'l', 'm', 'n', 'o', 'p', 'q', 'r',
        's', 't', 'u', 'v', 'w', 'x', 'y', 'z',
    ];
    let i = (c as u32 - 'A' as u32) as usize;
    let r = letters[i];
    assert(r == ((c as int) + 32) as char) by {
        assert(letters@ =~= seq![
            'a', 'b', 'c', 'd', 'e', 'f', 'g', 'h', 'i', 'j', 'k', 'l', 'm', 'n', 'o', 'p', 'q',
            'r', 's', 't', 'u', 'v', 'w', 'x', 'y', 'z',
        ]);
    }
    r
}

/// Whether an extension names a RAW format: `arw` or `dng`, in any case.
pub open spec fn raw_extension(ext: Option<Seq<char>>) -> bool {
    match ext {
        Some(e) => ascii_lower(e) == "arw"@ || ascii_lower(e) == "dng"@,
        None => false,
    }
}

/// Whether the file name `name` is a RAW file (ARW or DNG) by its extension,
/// in any case.
pub fn is_raw_file(name: &str) -> (r: bool)
    ensures
        r == raw_extension(entry_extension(name@)),
{
    match name_extension(name) {
        Some(e) => {
            let l = to_ascii_lower(e.as_str());
            same_str(l.as_str(), "arw") || same_str(l.as_str(), "dng")
        },
        None => false,
    }
}

/// Whether `s` ends with `suffix`.
pub open spec fn ends_with(s: Seq<char>, suffix: Seq<char>) -> bool {
    s.len() >= suffix.len() && s.subrange(s.len() - suffix.len(), s.len() as int) == suffix
}

/// Whether a directory entry named `name` (a one-component name) is a
/// sidecar of `format`.
pub open spec fn is_sidecar_of(format: SidecarFormat, name: Seq<char>) -> bool {
    let l = ascii_lower(name);
    let xmp = entry_extension(l) == Some("xmp"@);
    let dop = ends_with(l, ".dop"@) && raw_extension(
        entry_extension(l.subrange(0, l.len() - 4)),
    );
    match format {
        SidecarFormat::Xmp => xmp,
        SidecarFormat::Dop => dop,
        SidecarFormat::Both => xmp || dop,
    }
}

/// A dot-free tail leaves the last `.` where it was.
proof fn lemma_last_dot_append(s: Seq<char>, t: Seq<char>)
    requires
        forall|i: int| 0 <= i < t.len() ==> #[trigger] t[i] != '.',
    ensures
        last_dot(s + t) == last_dot(s),
    decreases t.len(),
{
    if t.len() > 0 {
        let u = t.drop_last();
        assert forall|i: int| 0 <= i < u.len() implies #[trigger] u[i] != '.' by {
            assert(u[i] == t[i]);
        }
        lemma_last_dot_append(s, u);
        assert((s + t).drop_last() =~= s + u);
        assert((s + t).last() == t.last());
    } else {
        assert(s + t =~= s);
    }
}

/// The last `.` is a `.` of the text.
proof fn lemma_last_dot_bounds(s: Seq<char>)
    ensures
        last_dot(s) matches Some(i) ==> 0 <= i < s.len() && s[i] == '.',
    decreases s.len(),
{
    if s.len() > 0 {
        lemma_last_dot_bounds(s.drop_last());
    }
}

/// Lower-casing keeps every `.` where it is.
proof fn lemma_last_dot_lower(s: Seq<char>)
    ensures
        last_dot(ascii_lower(s)) == last_dot(s),
    decreases s.len(),
{
    if s.len() > 0 {
        lemma_last_dot_lower(s.drop_last());
        assert(ascii_lower(s).drop_last() =~= ascii_lower(s.drop_last()));
        assert(ascii_lower(s).last() == '.' <==> s.last() == '.');
    }
}

/// Lower-casing a file name lower-cases its extension.
proof fn lemma_extension_lower(s: Seq<char>)
    ensures
        entry_extension(ascii_lower(s)) == match entry_extension(s) {
            Some(e) => Some(ascii_lower(e)),
            None => None,
        },
{
    reveal_strlit(".");
    reveal_strlit("..");
    let l = ascii_lower(s);
    lemma_last_dot_lower(s);
    assert forall|i: int| 0 <= i < s.len() implies (#[trigger] l[i] == '.') == (s[i] == '.') by {}
    if l == "."@ {
        assert(s =~= "."@);
    }
    if l == ".."@ {
        assert(s =~= ".."@);
    }
    if s == "."@ {
        assert(l =~= "."@);
    }
    if s == ".."@ {
        assert(l =~= ".."@);
    }
    lemma_last_dot_bounds(s);
    if let Some(i) = last_dot(s) {
        if i != 0 && s.len() != 0 && s != "."@ && s != ".."@ {
            assert(l.subrange(i + 1, l.len() as int) =~= ascii_lower(s.subrange(i + 1, s.len() as int)));
        }
    }
}

/// Lower-casing twice is lower-casing once.
proof fn lemma_lower_twice(s: Seq<char>)
    ensures
        ascii_lower(ascii_lower(s)) == ascii_lower(s),
{
    assert(ascii_lower(ascii_lower(s)) =~= ascii_lower(s));
}

/// Whether a RAW name is one whatever its case.
proof fn lemma_raw_lower(s: Seq<char>)
    ensures
        raw_extension(entry_extension(ascii_lower(s))) == raw_extension(entry_extension(s)),
{
    lemma_extension_lower(s);
    if let Some(e) = entry_extension(s) {
        lemma_lower_twice(e);
    }
}

/// A RAW file name with `.dop` after it (in any case) is that RAW's `.dop`
/// sidecar, under `Dop` and `Both`, and is no XMP sidecar and no RAW file.
pub proof fn law_a_raw_name_plus_dop_is_its_dop_sidecar(raw: Seq<char>)
    requires
        raw_extension(entry_extension(raw)),
    ensures
        is_sidecar_of(SidecarFormat::Dop, raw + ".dop"@),
        is_sidecar_of(SidecarFormat::Both, raw + ".dop"@),
        !is_sidecar_of(SidecarFormat::Xmp, raw + ".dop"@),
        !raw_extension(entry_extension(raw + ".dop"@)),
{
    reveal_strlit(".dop");
    reveal_strlit("dop");
    reveal_strlit("xmp");
    reveal_strlit("arw");
    reveal_strlit("dng");
    reveal_strlit(".");
    reveal_strlit("..");
    let dop = seq!['.', 'd', 'o', 'p'];
    assert(".dop"@ =~= dop);
    let n = raw + dop;
    let l = ascii_lower(n);
    assert(ascii_lower(dop) =~= dop);
    assert(l =~= ascii_lower(raw) + dop);
    assert(l.subrange(l.len() - 4, l.len() as int) =~= dop);
    assert(l.subrange(0, l.len() - 4) =~= ascii_lower(raw));
    lemma_raw_lower(raw);
    // the extension of the whole name is `dop`
    let tail = seq!['d', 'o', 'p'];
    assert forall|i: int| 0 <= i < tail.len() implies #[trigger] tail[i] != '.' by {}
    lemma_last_dot_append(raw + seq!['.'], tail);
    assert(raw + seq!['.'] + tail =~= n);
    assert(last_dot(raw + seq!['.']) == Some(raw.len() as int)) by {
        assert((raw + seq!['.']).last() == '.');
    }
    assert(raw.len() > 0);
    assert(n.len() >= 5);
    assert(n != "."@ && n != ".."@);
    assert(entry_extension(n) == Some(n.subrange(raw.len() as int + 1, n.len() as int)));
    assert(n.subrange(raw.len() as int + 1, n.len() as int) =~= tail);
    assert(ascii_lower(tail) =~= tail);
    assert(tail =~= "dop"@);
    lemma_extension_lower(n);
    assert(entry_extension(l) == Some(ascii_lower(tail)));
    assert(!(tail =~= "xmp"@)) by {
        assert(tail[0] != "xmp"@[0]);
    }
    assert(!(tail =~= "arw"@)) by {
        assert(tail[0] != "arw"@[0]);
    }
    assert(!(tail =~= "dng"@)) by {
        assert(tail[1] != "dng"@[1]);
    }
}

/// A name with `.xmp` after something (in any case) is an XMP sidecar,
/// under `Xmp` and `Both`, and is no `.dop` sidecar and no RAW file.
pub proof fn law_a_name_plus_xmp_is_an_xmp_sidecar(stem: Seq<char>)
    requires
        stem.len() > 0,
    ensures
        is_sidecar_of(SidecarFormat::Xmp, stem + ".xmp"@),
        is_sidecar_of(SidecarFormat::Both, stem + ".xmp"@),
        !is_sidecar_of(SidecarFormat::Dop, stem + ".xmp"@),
        !raw_extension(entry_extension(stem + ".xmp"@)),
{
    reveal_strlit(".xmp");
    reveal_strlit("xmp");
    reveal_strlit(".dop");
    reveal_strlit("arw");
    reveal_strlit("dng");
    reveal_strlit(".");
    reveal_strlit("..");
    let xmp = seq!['.', 'x', 'm', 'p'];
    assert(".xmp"@ =~= xmp);
    let n = stem + xmp;
    let l = ascii_lower(n);
    assert(ascii_lower(xmp) =~= xmp);
    assert(l =~= ascii_lower(stem) + xmp);
    let tail = seq!['x', 'm', 'p'];
    assert forall|i: int| 0 <= i < tail.len() implies #[trigger] tail[i] != '.' by {}
    lemma_last_dot_append(stem + seq!['.'], tail);
    assert(stem + seq!['.'] + tail =~= n);
    assert(last_dot(stem + seq!['.']) == Some(stem.len() as int)) by {
        assert((stem + seq!['.']).last() == '.');
    }
    assert(n != "."@ && n != ".."@) by {
        assert(n.len() >= 5);
    }
    assert(entry_extension(n) == Some(n.subrange(stem.len() as int + 1, n.len() as int)));
    assert(n.subrange(stem.len() as int + 1, n.len() as int) =~= tail);
    assert(ascii_lower(tail) =~= tail);
    assert(tail =~= "xmp"@);
    lemma_extension_lower(n);
    assert(entry_extension(l) == Some(tail));
    assert(l.subrange(l.len() - 4, l.len() as int) =~= xmp);
    assert(!(xmp =~= ".dop"@)) by {
        assert(xmp[1] != ".dop"@[1]);
    }
    assert(!ends_with(l, ".dop"@));
    assert(!(tail =~= "arw"@)) by {
        assert(tail[0] != "arw"@[0]);
    }
    assert(!(tail =~= "dng"@)) by {
        assert(tail[0] != "dng"@[0]);
    }
}

/// Under `Both` a name is a sidecar exactly when it is one of either
/// format, and no name is a sidecar of both formats at once.
pub proof fn law_both_formats_take_either_sidecar(name: Seq<char>)
    ensures
        is_sidecar_of(SidecarFormat::Both, name) == (is_sidecar_of(SidecarFormat::Xmp, name)
            || is_sidecar_of(SidecarFormat::Dop, name)),
        !(is_sidecar_of(SidecarFormat::Xmp, name) && is_sidecar_of(SidecarFormat::Dop, name)),
{
    reveal_strlit(".dop");
    reveal_strlit("xmp");
    let l = ascii_lower(name);
    if is_sidecar_of(SidecarFormat::Xmp, name) && is_sidecar_of(SidecarFormat::Dop, name) {
        // the extension ends the name, so it would end in `dop`
        lemma_last_dot_bounds(l);
        let i = last_dot(l)->0;
        assert(entry_extension(l) == Some(l.subrange(i + 1, l.len() as int)));
        let e = l.subrange(i + 1, l.len() as int);
        assert(e =~= "xmp"@);
        assert(e.len() == 3);
        assert(e[2] == l[i + 3] && e[1] == l[i + 2]);
        assert(l[l.len() - 1] == "xmp"@[2]);
        assert(l[l.len() - 1] == l.subrange(l.len() - 4, l.len() as int)[3]);
        assert(".dop"@[3] == 'p');
        assert(l[l.len() - 2] == "xmp"@[1]);
        assert(l[l.len() - 2] == l.subrange(l.len() - 4, l.len() as int)[2]);
    }
}

/// `s` ends with `suffix`, checked char by char.
pub(crate) fn str_ends_with(s: &str, suffix: &str) -> (r: bool)
    ensures
        r == ends_with(s@, suffix@),
{
    let a = crate::text::chars_of(s);
    let b = crate::text::chars_of(suffix);
    if a.len() < b.len() {
        return false;
    }
    let start = a.len() - b.len();
    let mut i: usize = 0;
    while i < b.len()
        invariant
            a@ == s@,
            b@ == suffix@,
            a@.len() >= b@.len(),
            a@.len() <= usize::MAX,
            start == a@.len() - b@.len(),
            i <= b@.len(),
            forall|j: int| 0 <= j < i ==> a@[start + j] == b@[j],
        decreases b@.len() - i,
    {
        if a[start + i] != b[i] {
            assert(s@.subrange(start as int, s@.len() as int)[i as int] != suffix@[i as int]);
            return false;
        }
        i = i + 1;
    }
    assert(s@.subrange(start as int, s@.len() as int) =~= suffix@);
    true
}

/// The chars of `s` before its last `n`.
fn drop_tail(s: &str, n: usize) -> (r: String)
    requires
        n <= s@.len(),
    ensures
        r@ == s@.subrange(0, s@.len() - n),
{
    let a = crate::text::chars_of(s);
    let mut out: Vec<char> = Vec::new();
    let mut i: usize = 0;
    let end = a.len() - n;
    while i < end
        invariant
            a@ == s@,
            end == a@.len() - n,
            i <= end,
            out@ == s@.subrange(0, i as int),
        decreases end - i,
    {
        out.push(a[i]);
        assert(out@ =~= s@.subrange(0, i + 1));
        i = i + 1;
    }
    crate::text::string_of(out.as_slice())
}

impl SidecarFormat {
    /// Whether a directory entry named `name` is a sidecar of this format:
    /// `*.xmp`, or a RAW file name plus `.dop` (`*.arw.dop`, `*.dng.dop`),
    /// all case-insensitive; `Both` matches either. The name is read as one
    /// file name, whatever characters it holds.
    pub fn matches(self, name: &str) -> (r: bool)
        ensures
            r == is_sidecar_of(self, name@),
    {
        let lower = to_ascii_lower(name);
        let xmp = match name_extension(lower.as_str()) {
            Some(e) => same_str(e.as_str(), "xmp"),
            None => false,
        };
        let dop = if str_ends_with(lower.as_str(), ".dop") {
            proof {
                reveal_strlit(".dop");
            }
            let raw = drop_tail(lower.as_str(), 4);
            is_raw_file(raw.as_str())
        } else {
            false
        };
        match self {
            SidecarFormat::Xmp => xmp,
            SidecarFormat::Dop => dop,
            SidecarFormat::Both => xmp || dop,
        }
    }
}

/// The file name of the RAW file at `arw`, or `""` when it has none.
pub fn raw_name(arw: &str) -> (r: String)
    ensures
        simple_name(arw@) ==> r@ == match entry_file_name(arw@) {
            Some(n) => n,
            None => Seq::<char>::empty(),
        },
        portable_path(arw@) && final_name(arw@) is Some ==> Some(r@) == final_name(arw@),
{
    match path_file_name(arw) {
        Some(n) => n,
        None => String::new(),
    }
}

} // verus!

verus! {

/// The index `newest` picks among `(sidecar, mtime_ns)` pairs: the one
/// modified last, and on a tie the one listed first.
pub open spec fn newest_index<T>(s: Seq<(T, i64)>) -> Option<int>
    decreases s.len(),
{
    if s.len() == 0 {
        None
    } else {
        match newest_index(s.drop_last()) {
            Some(i) => if s[i].1 >= s.last().1 {
                Some(i)
            } else {
                Some(s.len() - 1)
            },
            None => Some(s.len() - 1),
        }
    }
}

/// What `newest` picks is modified last, and no sidecar listed before it was
/// modified as late.
pub proof fn law_newest_is_latest_and_first<T>(s: Seq<(T, i64)>)
    ensures
        s.len() == 0 <==> newest_index(s) is None,
        newest_index(s) matches Some(i) ==> 0 <= i < s.len() && (forall|j: int|
            0 <= j < s.len() ==> #[trigger] s[j].1 <= s[i].1) && (forall|j: int|
            0 <= j < i ==> #[trigger] s[j].1 < s[i].1),
    decreases s.len(),
{
    if s.len() > 0 {
        let p = s.drop_last();
        let n = s.len() - 1;
        law_newest_is_latest_and_first(p);
        match newest_index(p) {
            Some(b) => {
                assert(p[b] == s[b]);
                if s[b].1 >= s[n].1 {
                    assert forall|j: int| 0 <= j < s.len() implies #[trigger] s[j].1 <= s[b].1 by {
                        if j < n {
                            assert(p[j] == s[j]);
                        }
                    }
                    assert forall|j: int| 0 <= j < b implies #[trigger] s[j].1 < s[b].1 by {
                        assert(p[j] == s[j]);
                    }
                } else {
                    assert forall|j: int| 0 <= j < s.len() implies #[trigger] s[j].1 <= s[n].1 by {
                        if j < n {
                            assert(p[j] == s[j]);
                        }
                    }
                    assert forall|j: int| 0 <= j < n implies #[trigger] s[j].1 < s[n].1 by {
                        assert(p[j] == s[j]);
                    }
                }
            },
            None => {},
        }
    }
}

/// The effective one of a file's existing sidecars, given as
/// `(sidecar, mtime_ns)` in `kinds()` order: the one modified last, and on a
/// tie (an exFAT card keeps mtimes to 2 s) the one listed first.
pub fn newest<T>(sidecars: Vec<(T, i64)>) -> (r: Option<T>)
    ensures
        match newest_index(sidecars@) {
            Some(i) => r == Some(sidecars@[i].0),
            None => r is None,
        },
{
    let mut best: Option<usize> = None;
    let mut i: usize = 0;
    while i < sidecars.len()
        invariant
            i <= sidecars@.len(),
            best == match newest_index(sidecars@.take(i as int)) {
                Some(b) => Some(b as usize),
                None => None::<usize>,
            },
            newest_index(sidecars@.take(i as int)) matches Some(b) ==> 0 <= b < i,
        decreases sidecars@.len() - i,
    {
        let ghost t = sidecars@.take(i + 1);
        assert(t.drop_last() =~= sidecars@.take(i as int));
        proof {
            law_newest_is_latest_and_first(sidecars@.take(i as int));
        }
        match best {
            Some(b) => {
                assert(t[b as int] == sidecars@[b as int]);
                if sidecars[b].1 < sidecars[i].1 {
                    best = Some(i);
                }
            },
            None => {
                best = Some(i);
            },
        }
        i = i + 1;
    }
    assert(sidecars@.take(i as int) =~= sidecars@);
    match best {
        Some(b) => {
            let mut v = sidecars;
            let (x, _) = v.swap_remove(b);
            Some(x)
        },
        None => None,
    }
}

/// Delay in seconds before the first retry of a failed write; each further
/// retry doubles it.
pub const RETRY_BASE: u64 = 1;

/// Retries of a failed write before it is given up on. Five retries (1 s,
/// 2 s, 4 s, 8 s, 16 s, ~31 s in all) ride out a card reconnect or a
/// transient lock, while a genuinely read-only folder stops reporting within
/// a minute; the dirty row is then written on the next folder open.
pub const RETRY_LIMIT: u32 = 5;

/// Suffix of the temp file each write goes to before being renamed into
/// place.
pub const TEMP_SUFFIX: &'static str = ".riffle-tmp";

/// How long a path's last update is held before its sidecar is written, in
/// milliseconds.
pub const DEBOUNCE_MS: u64 = 300;

/// Longest the quit path waits for the writer to drain, in seconds.
pub const DRAIN_TIMEOUT_SECS: u64 = 2;

/// `2` to the power `n`.
pub open spec fn two_to(n: nat) -> nat
    decreases n,
{
    if n == 0 {
        1
    } else {
        2 * two_to((n - 1) as nat)
    }
}

/// The delay in seconds before retry number `attempts` (1-based) of a
/// failed write: `RETRY_BASE` doubled for each earlier retry, or `None` once
/// `RETRY_LIMIT` retries have been made (and for `0`).
pub fn retry_delay(attempts: u32) -> (r: Option<u64>)
    ensures
        1 <= attempts <= RETRY_LIMIT ==> r == Some((RETRY_BASE * two_to((attempts - 1) as nat)) as u64),
        !(1 <= attempts <= RETRY_LIMIT) ==> r is None,
{
    if attempts < 1 || attempts > RETRY_LIMIT {
        return None;
    }
    let mut delay: u64 = RETRY_BASE;
    let mut n: u32 = 1;
    while n < attempts
        invariant
            1 <= n <= attempts <= RETRY_LIMIT,
            delay == RETRY_BASE * two_to((n - 1) as nat),
        decreases attempts - n,
    {
        assert(two_to(n as nat) == 2 * two_to((n - 1) as nat));
        assert(delay <= 16) by {
            reveal_with_fuel(two_to, 5);
        }
        delay = delay * 2;
        n = n + 1;
    }
    Some(delay)
}

/// Each retry waits twice as long as the one before it.
pub proof fn law_the_retry_delay_doubles(attempts: u32)
    requires
        1 <= attempts < RETRY_LIMIT,
    ensures
        RETRY_BASE * two_to(attempts as nat) == 2 * (RETRY_BASE * two_to((attempts - 1) as nat)),
{
}

} // verus!
