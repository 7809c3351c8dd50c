//! The decisions the on-disk index makes around its SQLite queries: the
//! judgment codes stored in it, which rows a folder open invalidates, which
//! sidecars it reads back, when eviction stops, and how a scan batches its
//! writes.

use vstd::prelude::*;

use crate::text::{concat, debug_str, shown, same_str};

verus! {

/// A folder not opened for this long loses its rows at the next launch.
pub const MAX_AGE_SECS: i64 = 2592000;

/// The size eviction shrinks the database under, least-recently-opened
/// folder first, once the aged folders are gone.
pub const MAX_BYTES: i64 = 1073741824;

/// How many scan results go into one write transaction.
pub const BATCH: usize = 10;

/// What `evict` removes.
#[derive(Debug, Clone, Copy, PartialEq, Eq, Structural)]
pub struct EvictPolicy {
    pub max_age_secs: i64,
    pub max_bytes: i64,
}

impl EvictPolicy {
    /// The policy the app evicts with: a month, and a gigabyte.
    pub fn standard() -> (r: EvictPolicy)
        ensures
            r == (EvictPolicy { max_age_secs: MAX_AGE_SECS, max_bytes: MAX_BYTES }),
    {
        EvictPolicy { max_age_secs: MAX_AGE_SECS, max_bytes: MAX_BYTES }
    }
}

/// How an `evict` ended.
#[derive(Debug, Clone, Copy, PartialEq, Eq, Structural)]
pub struct EvictSummary {
    pub folders: usize,
    pub rows: usize,
    pub vacuumed: bool,
}

/// What `stat` says about one listed file.
#[derive(Debug, PartialEq, Eq)]
pub struct FileStat {
    pub path: String,
    pub size: i64,
    pub mtime_ns: i64,
}

/// The AF frame size, in sensor coordinates.
#[derive(Debug, Clone, Copy, PartialEq, Eq, Structural)]
pub struct FocusSize {
    pub width: u16,
    pub height: u16,
}

/// How a finished scan ended.
#[derive(Debug, Clone, Copy, PartialEq, Eq, Structural)]
pub struct ScanSummary {
    pub total: usize,
    pub errors: usize,
}

/// Seconds since the epoch, as the system clock has them; `None` for a
/// clock set before the epoch. The contract states nothing of the value:
/// it is the time.
#[verifier::external_body]
fn clock_secs() -> (r: Option<u64>) {
    std::time::SystemTime::now().duration_since(std::time::UNIX_EPOCH).ok().map(|d| d.as_secs())
}

/// The seconds a clock reading stands for: `0` for a clock set before the
/// epoch.
pub open spec fn secs_of(reading: Option<u64>) -> i64 {
    match reading {
        Some(s) => s as i64,
        None => 0,
    }
}

/// The seconds a clock reading stands for, `0` for a clock set before the
/// epoch.
pub fn secs_since_epoch(reading: Option<u64>) -> (r: i64)
    ensures
        r == secs_of(reading),
{
    match reading {
        Some(s) => s as i64,
        None => 0,
    }
}

/// Seconds since the epoch, 0 for a clock set before it.
pub fn now_secs() -> (r: i64)
    ensures
        exists|reading: Option<u64>| r == secs_of(reading),
{
    let reading = clock_secs();
    secs_since_epoch(reading)
}

/// The pick / reject flag of a file.
#[derive(Clone, Copy, Debug, PartialEq, Eq, Structural)]
pub enum Flag {
    /// Neither picked nor rejected.
    Unflagged,
    Pick,
    Reject,
}

/// Whether the faces of a photo were caught in focus.
#[derive(Clone, Copy, Debug, PartialEq, Eq, Structural)]
pub enum FaceCatch {
    Caught,
    Missed,
    Unknown,
}

/// The name the frontend uses for a flag.
pub open spec fn flag_text(flag: Flag) -> Seq<char> {
    match flag {
        Flag::Unflagged => "none"@,
        Flag::Pick => "pick"@,
        Flag::Reject => "reject"@,
    }
}

/// The name the frontend uses for `flag`.
pub fn flag_name(flag: Flag) -> (r: &'static str)
    ensures
        r@ == flag_text(flag),
{
    match flag {
        Flag::Unflagged => "none",
        Flag::Pick => "pick",
        Flag::Reject => "reject",
    }
}

/// The message an unknown flag name gets.
pub open spec fn unknown_flag(name: Seq<char>) -> Seq<char> {
    "unknown flag "@ + shown(name)
}

/// The flag a name names, if any.
pub open spec fn flag_named(name: Seq<char>) -> Option<Flag> {
    if name == "none"@ {
        Some(Flag::Unflagged)
    } else if name == "pick"@ {
        Some(Flag::Pick)
    } else if name == "reject"@ {
        Some(Flag::Reject)
    } else {
        None
    }
}

/// The flag `flag_name` names.
pub fn parse_flag(name: &str) -> (r: Result<Flag, String>)
    ensures
        match flag_named(name@) {
            Some(f) => r == Ok::<Flag, String>(f),
            None => r matches Err(e) && e@ == unknown_flag(name@),
        },
{
    if same_str(name, "none") {
        Ok(Flag::Unflagged)
    } else if same_str(name, "pick") {
        Ok(Flag::Pick)
    } else if same_str(name, "reject") {
        Ok(Flag::Reject)
    } else {
        Err(concat("unknown flag ", debug_str(name).as_str()))
    }
}

/// The `ratings.flag` code of a flag.
pub open spec fn flag_number(flag: Flag) -> i64 {
    match flag {
        Flag::Unflagged => 0,
        Flag::Pick => 1,
        Flag::Reject => 2,
    }
}

/// The `ratings.flag` code of `flag`.
pub fn flag_code(flag: Flag) -> (r: i64)
    ensures
        r == flag_number(flag),
{
    match flag {
        Flag::Unflagged => 0,
        Flag::Pick => 1,
        Flag::Reject => 2,
    }
}

/// The flag a stored code stands for: an unknown code is no flag.
pub open spec fn flag_of_code(code: i64) -> Flag {
    if code == 1 {
        Flag::Pick
    } else if code == 2 {
        Flag::Reject
    } else {
        Flag::Unflagged
    }
}

/// The flag a stored `ratings.flag` code stands for.
pub fn flag_from_code(code: i64) -> (r: Flag)
    ensures
        r == flag_of_code(code),
{
    match code {
        1 => Flag::Pick,
        2 => Flag::Reject,
        _ => Flag::Unflagged,
    }
}

/// The name the frontend uses for a face-catch state.
pub open spec fn face_catch_text(state: FaceCatch) -> Seq<char> {
    match state {
        FaceCatch::Caught => "caught"@,
        FaceCatch::Missed => "missed"@,
        FaceCatch::Unknown => "unknown"@,
    }
}

/// The name the frontend uses for a face-catch state.
pub fn face_catch_name(state: FaceCatch) -> (r: &'static str)
    ensures
        r@ == face_catch_text(state),
{
    match state {
        FaceCatch::Caught => "caught",
        FaceCatch::Missed => "missed",
        FaceCatch::Unknown => "unknown",
    }
}

/// The `files.face_catch` code of a state.
pub open spec fn face_catch_number(state: FaceCatch) -> i64 {
    match state {
        FaceCatch::Unknown => 0,
        FaceCatch::Caught => 1,
        FaceCatch::Missed => 2,
    }
}

/// The `files.face_catch` code of `state`.
pub fn face_catch_code(state: FaceCatch) -> (r: i64)
    ensures
        r == face_catch_number(state),
{
    match state {
        FaceCatch::Unknown => 0,
        FaceCatch::Caught => 1,
        FaceCatch::Missed => 2,
    }
}

/// The state a stored code stands for: an unknown code is `Unknown`.
pub open spec fn face_catch_of_code(code: i64) -> FaceCatch {
    if code == 1 {
        FaceCatch::Caught
    } else if code == 2 {
        FaceCatch::Missed
    } else {
        FaceCatch::Unknown
    }
}

/// The face-catch state a stored `files.face_catch` code stands for.
pub fn face_catch_from_code(code: i64) -> (r: FaceCatch)
    ensures
        r == face_catch_of_code(code),
{
    match code {
        1 => FaceCatch::Caught,
        2 => FaceCatch::Missed,
        _ => FaceCatch::Unknown,
    }
}

/// A flag stored as its code reads back as itself, and a flag's name parses
/// back to it.
pub proof fn law_a_flag_round_trips(flag: Flag)
    ensures
        flag_of_code(flag_number(flag)) == flag,
        flag_named(flag_text(flag)) == Some(flag),
{
    reveal_strlit("none");
    reveal_strlit("pick");
    reveal_strlit("reject");
    assert("none"@ != "pick"@ && "none"@ != "reject"@ && "pick"@ != "reject"@) by {
        assert("none"@[0] != "pick"@[0]);
        assert("none"@[0] != "reject"@[0]);
        assert("pick"@[0] != "reject"@[0]);
    }
}

/// A face-catch state stored as its code reads back as itself, and the
/// three states have three names.
pub proof fn law_a_face_catch_round_trips(state: FaceCatch, other: FaceCatch)
    ensures
        face_catch_of_code(face_catch_number(state)) == state,
        state != other ==> face_catch_text(state) != face_catch_text(other),
{
    reveal_strlit("caught");
    reveal_strlit("missed");
    reveal_strlit("unknown");
    assert("caught"@[0] != "missed"@[0]);
    assert("caught"@[0] != "unknown"@[0]);
    assert("missed"@[0] != "unknown"@[0]);
}

} // verus!

verus! {

/// The part of a `ratings` row the folder-open reconciliation looks at: the
/// stat of the sidecar as the app last saw it, and whether a judgment is
/// still waiting to be written.
#[derive(Debug, Clone, Copy, PartialEq, Eq, Structural)]
pub struct RatingRow {
    pub size: Option<i64>,
    pub mtime_ns: Option<i64>,
    pub dirty: bool,
}

/// What a folder open does with one file's sidecar.
#[derive(Debug, Clone, Copy, PartialEq, Eq, Structural)]
pub enum SidecarAction {
    /// Read and parse the sidecar, which changed since the app last saw it;
    /// `dirty` is whether the row held an unwritten judgment then.
    Parse { dirty: bool },
    /// The sidecar is gone and the row holds nothing unwritten: clear the
    /// row's judgment and stat.
    Clear,
    /// Nothing to do.
    Keep,
}

/// What a folder open does with the sidecar of a file whose `ratings` row
/// is `row` (if any) and whose sidecar on disk has `stat` (size and mtime,
/// `None` when there is none). The sidecar is the source of truth, so a
/// sidecar whose stat changed is read back; a deleted sidecar clears a row
/// that held one, unless the row still waits to be written.
pub open spec fn sidecar_action_for(row: Option<RatingRow>, stat: Option<(i64, i64)>) -> SidecarAction {
    let dirty = row matches Some(r) && r.dirty;
    match stat {
        Some((size, mtime_ns)) => if row matches Some(r) && r.size == Some(size) && r.mtime_ns
            == Some(mtime_ns) {
            SidecarAction::Keep
        } else {
            SidecarAction::Parse { dirty }
        },
        None => if !dirty && (row matches Some(r) && (r.size is Some || r.mtime_ns is Some)) {
            SidecarAction::Clear
        } else {
            SidecarAction::Keep
        },
    }
}

/// What a folder open does with one file's sidecar; see
/// `sidecar_action_for`.
pub fn sidecar_action(row: Option<RatingRow>, stat: Option<(i64, i64)>) -> (r: SidecarAction)
    ensures
        r == sidecar_action_for(row, stat),
{
    let dirty = match row {
        Some(r) => r.dirty,
        None => false,
    };
    match stat {
        Some((size, mtime_ns)) => {
            let same = match row {
                Some(r) => r.size == Some(size) && r.mtime_ns == Some(mtime_ns),
                None => false,
            };
            if same {
                SidecarAction::Keep
            } else {
                SidecarAction::Parse { dirty }
            }
        },
        None => {
            let had = match row {
                Some(r) => r.size.is_some() || r.mtime_ns.is_some(),
                None => false,
            };
            if !dirty && had {
                SidecarAction::Clear
            } else {
                SidecarAction::Keep
            }
        },
    }
}

/// A judgment still waiting to be written is never cleared by a folder
/// open, and a sidecar whose stat is unchanged is never read again.
pub proof fn law_a_dirty_row_is_never_cleared(row: Option<RatingRow>, stat: Option<(i64, i64)>)
    ensures
        row matches Some(r) && r.dirty ==> sidecar_action_for(row, stat) != SidecarAction::Clear,
        (row matches Some(r) && stat matches Some(s) && r.size == Some(s.0) && r.mtime_ns == Some(
            s.1,
        )) ==> sidecar_action_for(row, stat) == SidecarAction::Keep,
{
}

/// Whether eviction stops at a folder last opened at `opened_at`: it is
/// recent enough, and the pages in use already fit the policy.
pub open spec fn evict_stops_at(opened_at: i64, now: i64, policy: EvictPolicy, used_bytes: i64) -> bool {
    opened_at >= now - policy.max_age_secs && used_bytes <= policy.max_bytes
}

/// Whether eviction, which goes least-recently-opened folder first, stops
/// at a folder last opened at `opened_at`, with `used_bytes` in use.
pub fn evict_stops(opened_at: i64, now: i64, policy: EvictPolicy, used_bytes: i64) -> (r: bool)
    requires
        i64::MIN <= now - policy.max_age_secs <= i64::MAX,
    ensures
        r == evict_stops_at(opened_at, now, policy, used_bytes),
{
    opened_at >= now - policy.max_age_secs && used_bytes <= policy.max_bytes
}

/// A listed file in the abstract: its path, size and mtime.
pub type StatModel = (Seq<char>, i64, i64);

/// A known `files` row in the abstract: its path, size, mtime and the
/// extractor version that wrote it.
pub type RowModel = (Seq<char>, i64, i64, i64);

/// Whether the row `row` is still valid for the listing `listed`: a listed
/// file with the same path has the same size and mtime, and the row was
/// written by extractor `version`.
pub open spec fn row_valid(row: RowModel, listed: Seq<StatModel>, version: i64) -> bool {
    exists|i: int|
        0 <= i < listed.len() && #[trigger] listed[i] == (row.0, row.1, row.2) && row.3 == version
}

/// Whether a listed file needs its row (re)written: no known row has its
/// path, size and mtime at `version`.
pub open spec fn needs_extraction(file: StatModel, known: Seq<RowModel>, version: i64) -> bool {
    !exists|i: int| 0 <= i < known.len() && #[trigger] known[i] == (file.0, file.1, file.2, version)
}

/// The test a known row fails when the listing `listed` keeps it.
pub open spec fn invalid_row(listed: Seq<StatModel>, version: i64) -> spec_fn(RowModel) -> bool {
    |row: RowModel| !row_valid(row, listed, version)
}

/// The path of a known row.
pub open spec fn row_path() -> spec_fn(RowModel) -> Seq<char> {
    |row: RowModel| row.0
}

/// The stats of a listing, in the abstract.
pub open spec fn stat_views(v: Seq<FileStat>) -> Seq<StatModel> {
    v.map_values(|f: FileStat| (f.path@, f.size, f.mtime_ns))
}

/// The known rows of a folder, in the abstract.
pub open spec fn row_views(v: Seq<(String, i64, i64, i64)>) -> Seq<RowModel> {
    v.map_values(|r: (String, i64, i64, i64)| (r.0@, r.1, r.2, r.3))
}

/// The known rows a folder open deletes: those whose file is no longer
/// listed with the same size and mtime, or was written by another
/// extractor version; in their order.
pub fn stale_rows(known: &Vec<(String, i64, i64, i64)>, listed: &Vec<FileStat>, version: i64) -> (r:
    Vec<String>)
    ensures
        r@.map_values(|s: String| s@) == row_views(known@).filter(
            invalid_row(stat_views(listed@), version),
        ).map_values(row_path()),
{
    let ghost rows = row_views(known@);
    let ghost lv = stat_views(listed@);
    let ghost keep = invalid_row(lv, version);
    let mut r: Vec<String> = Vec::new();
    let mut i: usize = 0;
    assert(rows.take(0).filter(keep) =~= Seq::<RowModel>::empty());
    while i < known.len()
        invariant
            i <= known@.len(),
            rows == row_views(known@),
            lv == stat_views(listed@),
            keep == invalid_row(lv, version),
            r@.map_values(|s: String| s@) == rows.take(i as int).filter(keep).map_values(
                row_path(),
            ),
        decreases known@.len() - i,
    {
        let row = &known[i];
        let ghost rm = rows[i as int];
        assert(rm == (row.0@, row.1, row.2, row.3));
        let mut valid = false;
        let mut j: usize = 0;
        while j < listed.len()
            invariant
                j <= listed@.len(),
                lv == stat_views(listed@),
                rm == (row.0@, row.1, row.2, row.3),
                valid == exists|k: int| 0 <= k < j && #[trigger] lv[k] == (rm.0, rm.1, rm.2),
            decreases listed@.len() - j,
        {
            let f = &listed[j];
            assert(lv[j as int] == (f.path@, f.size, f.mtime_ns));
            if f.size == row.1 && f.mtime_ns == row.2 && same_str(f.path.as_str(), row.0.as_str()) {
                valid = true;
            }
            j = j + 1;
        }
        let valid = valid && row.3 == version;
        assert(valid == row_valid(rm, lv, version));
        let ghost t = rows.take(i + 1);
        assert(t.drop_last() =~= rows.take(i as int));
        assert(t.filter(keep) == if keep(rm) {
            rows.take(i as int).filter(keep).push(rm)
        } else {
            rows.take(i as int).filter(keep)
        }) by {
            assert(t.last() == rm);
            rows.take(i as int).lemma_filter_push(rm, keep);
            assert(rows.take(i as int).push(rm) =~= t);
        }
        if !valid {
            let ghost before = r@;
            r.push(row.0.clone());
            assert(r@.map_values(|s: String| s@) =~= before.map_values(|s: String| s@).push(rm.0));
            assert(rows.take(i as int).filter(keep).push(rm).map_values(row_path())
                =~= rows.take(i as int).filter(keep).map_values(row_path()).push(rm.0));
        }
        i = i + 1;
    }
    assert(rows.take(i as int) =~= rows);
    r
}

/// The test a listed file passes when no known row is valid for it.
pub open spec fn unextracted(known: Seq<RowModel>, version: i64) -> spec_fn(StatModel) -> bool {
    |file: StatModel| needs_extraction(file, known, version)
}

impl FileStat {
    /// A copy of this stat.
    pub fn copy(&self) -> (r: FileStat)
        ensures
            r.path@ == self.path@,
            r.size == self.size,
            r.mtime_ns == self.mtime_ns,
    {
        FileStat { path: self.path.clone(), size: self.size, mtime_ns: self.mtime_ns }
    }
}

/// The listed files a folder open hands to the scan: those no known row
/// holds with the same size and mtime at extractor `version`, in their
/// order.
pub fn files_to_extract(known: &Vec<(String, i64, i64, i64)>, files: &Vec<FileStat>, version: i64) -> (r:
    Vec<FileStat>)
    ensures
        stat_views(r@) == stat_views(files@).filter(unextracted(row_views(known@), version)),
{
    let ghost rows = row_views(known@);
    let ghost fv = stat_views(files@);
    let ghost keep = unextracted(rows, version);
    let mut r: Vec<FileStat> = Vec::new();
    let mut i: usize = 0;
    assert(fv.take(0).filter(keep) =~= Seq::<StatModel>::empty());
    while i < files.len()
        invariant
            i <= files@.len(),
            rows == row_views(known@),
            fv == stat_views(files@),
            keep == unextracted(rows, version),
            stat_views(r@) == fv.take(i as int).filter(keep),
        decreases files@.len() - i,
    {
        let f = &files[i];
        let ghost fm = fv[i as int];
        assert(fm == (f.path@, f.size, f.mtime_ns));
        let mut found = false;
        let mut j: usize = 0;
        while j < known.len()
            invariant
                j <= known@.len(),
                rows == row_views(known@),
                fm == (f.path@, f.size, f.mtime_ns),
                found == exists|k: int|
                    0 <= k < j && #[trigger] rows[k] == (fm.0, fm.1, fm.2, version),
            decreases known@.len() - j,
        {
            let row = &known[j];
            assert(rows[j as int] == (row.0@, row.1, row.2, row.3));
            if row.1 == f.size && row.2 == f.mtime_ns && row.3 == version && same_str(
                row.0.as_str(),
                f.path.as_str(),
            ) {
                found = true;
            }
            j = j + 1;
        }
        assert(found == !needs_extraction(fm, rows, version));
        let ghost t = fv.take(i + 1);
        assert(t.drop_last() =~= fv.take(i as int));
        assert(t.filter(keep) == if keep(fm) {
            fv.take(i as int).filter(keep).push(fm)
        } else {
            fv.take(i as int).filter(keep)
        }) by {
            fv.take(i as int).lemma_filter_push(fm, keep);
            assert(fv.take(i as int).push(fm) =~= t);
        }
        if !found {
            let ghost before = r@;
            let c = f.copy();
            r.push(c);
            assert(stat_views(r@) =~= stat_views(before).push(fm));
        }
        i = i + 1;
    }
    assert(fv.take(i as int) =~= fv);
    r
}

} // verus!

verus! {

/// Collects scan results into batches of `BATCH`, each written in one
/// transaction.
pub struct Batcher<T> {
    pending: Vec<T>,
}

impl<T> Batcher<T> {
    /// The results waiting for a batch.
    pub closed spec fn waiting(&self) -> Seq<T> {
        self.pending@
    }

    /// Nothing waiting.
    pub fn new() -> (r: Batcher<T>)
        ensures
            r.waiting() == Seq::<T>::empty(),
    {
        Batcher { pending: Vec::new() }
    }

    /// Add one result; once `BATCH` results wait, they are handed back as
    /// one batch and nothing waits any more.
    pub fn push(&mut self, item: T) -> (r: Vec<T>)
        ensures
            old(self).waiting().len() + 1 >= BATCH ==> r@ == old(self).waiting().push(item),
            old(self).waiting().len() + 1 >= BATCH ==> final(self).waiting() == Seq::<T>::empty(),
            old(self).waiting().len() + 1 < BATCH ==> r@ == Seq::<T>::empty(),
            old(self).waiting().len() + 1 < BATCH ==> final(self).waiting() == old(
                self,
            ).waiting().push(item),
    {
        self.pending.push(item);
        if self.pending.len() >= BATCH {
            let mut batch: Vec<T> = Vec::new();
            std::mem::swap(&mut batch, &mut self.pending);
            batch
        } else {
            Vec::new()
        }
    }

    /// Everything still waiting, as the trailing batch.
    pub fn take(&mut self) -> (r: Vec<T>)
        ensures
            r@ == old(self).waiting(),
            final(self).waiting() == Seq::<T>::empty(),
    {
        let mut batch: Vec<T> = Vec::new();
        std::mem::swap(&mut batch, &mut self.pending);
        batch
    }
}

} // verus!

verus! {

/// The largest sidecar a folder open reads, in bytes. A Lightroom sidecar is
/// tens of KB; anything past this is not a sidecar to parse, and is left
/// alone rather than failing the open.
pub const MAX_SIDECAR_BYTES: i64 = 4194304;

/// Whether a changed sidecar of `size` bytes is too large to read: it is
/// reported instead, and its row is kept from the writer.
pub fn sidecar_too_large(size: i64) -> (r: bool)
    ensures
        r == (size > MAX_SIDECAR_BYTES),
{
    size > MAX_SIDECAR_BYTES
}

/// What a too-large sidecar is reported with.
pub open spec fn oversize_text() -> Seq<char> {
    "larger than "@ + crate::judging::int_text(MAX_SIDECAR_BYTES / 1024 / 1024) + " MiB, not read"@
}

/// The message of a sidecar too large to read: how large it may be, in MiB.
pub fn oversize_message() -> (r: String)
    ensures
        r@ == oversize_text(),
{
    let mib = crate::judging::int_to_text(MAX_SIDECAR_BYTES / 1024 / 1024);
    let head = concat("larger than ", mib.as_str());
    concat(head.as_str(), " MiB, not read")
}

/// A problem with the sidecar at `sidecar`, as the folder open reports it:
/// the sidecar's file name (its whole path when it has none), a colon and
/// the message.
pub fn sidecar_problem(sidecar: &str, message: &str) -> (r: String)
    ensures
        exists|name: Seq<char>| #[trigger] (name + ": "@ + message@) == r@,
        crate::sidecar::simple_name(sidecar@) ==> r@ == match crate::sidecar::entry_file_name(
            sidecar@,
        ) {
            Some(n) => n,
            None => sidecar@,
        } + ": "@ + message@,
        crate::sidecar::portable_path(sidecar@) && crate::sidecar::final_name(sidecar@) is Some
            ==> r@ == crate::sidecar::final_name(sidecar@)->0 + ": "@ + message@,
{
    let name = match crate::sidecar::file_name_of(sidecar) {
        Some(n) => n,
        None => sidecar.to_string(),
    };
    let head = concat(name.as_str(), ": ");
    let r = concat(head.as_str(), message);
    assert(name@ + ": "@ + message@ == r@);
    r
}

/// Whether a path is not among `skip`.
pub open spec fn not_among<T>(skip: Seq<Seq<char>>) -> spec_fn((String, T)) -> bool {
    |e: (String, T)| !skip.contains(e.0@)
}

/// Whether `path` is one of `skip`.
fn is_among(skip: &Vec<String>, path: &str) -> (r: bool)
    ensures
        r == skip@.map_values(|s: String| s@).contains(path@),
{
    let ghost names = skip@.map_values(|s: String| s@);
    let mut i: usize = 0;
    while i < skip.len()
        invariant
            i <= skip@.len(),
            names == skip@.map_values(|s: String| s@),
            forall|j: int| 0 <= j < i ==> names[j] != path@,
        decreases skip@.len() - i,
    {
        if same_str(skip[i].as_str(), path) {
            assert(names[i as int] == path@);
            return true;
        }
        i = i + 1;
    }
    false
}

/// The judgments still to be written, less those of the files whose sidecar
/// was too large to read: the writer would otherwise patch a sidecar whose
/// outside edit was never read.
pub fn writable_rows<T>(rows: Vec<(String, T)>, skip: &Vec<String>) -> (r: Vec<(String, T)>)
    ensures
        r@ == rows@.filter(not_among::<T>(skip@.map_values(|s: String| s@))),
{
    let ghost names = skip@.map_values(|s: String| s@);
    let ghost f = not_among::<T>(names);
    let ghost all = rows@;
    let mut rows = rows;
    let mut kept: Vec<(String, T)> = Vec::new();
    let ghost mut k: int = 0;
    proof {
        assert(all.take(0) =~= Seq::<(String, T)>::empty());
        all.take(0).lemma_filter_len(f);
        assert(all.skip(0) =~= all);
    }
    while rows.len() > 0
        invariant
            names == skip@.map_values(|s: String| s@),
            f == not_among::<T>(names),
            0 <= k <= all.len(),
            rows@ == all.skip(k),
            kept@ == all.take(k).filter(f),
        decreases rows@.len(),
    {
        let row = rows.remove(0);
        proof {
            assert(row == all[k]);
            assert(all.take(k + 1) =~= all.take(k).push(row));
            all.take(k).lemma_filter_push(row, f);
            assert(rows@ =~= all.skip(k + 1));
        }
        if !is_among(skip, row.0.as_str()) {
            kept.push(row);
        }
        proof {
            k = k + 1;
        }
    }
    assert(all.take(k) =~= all);
    kept
}

} // verus!

verus! {

/// The schema version of the index database, stored as its
/// `user_version`; it goes up whenever the layout changes.
pub const SCHEMA_VERSION: i64 = 14;

/// What opening the index does to a database found at a schema version:
/// which tables are rebuilt and which columns are added or moved.
#[derive(Debug, PartialEq, Eq)]
pub struct Migration {
    /// Drop the `files` rows, whose layout changed (versions 2 to 9).
    pub drop_files: bool,
    /// Fill `folders` from the `files` rows (version 7).
    pub backfill_folders: bool,
    /// Add `ratings.pick` (version 2).
    pub add_pick: bool,
    /// Add `ratings.label` (versions 2 to 4).
    pub add_label: bool,
    /// Add `ratings.label_known` (versions 2 to 5).
    pub add_label_known: bool,
    /// Move picks and rejects into `ratings.flag` (versions 2 to 10).
    pub move_flags: bool,
    /// Add `files.extractor` (versions 10 and 11).
    pub add_extractor: bool,
    /// Add `files.frame_w`, `frame_h` and `manual_focus` (versions 10 to 12).
    pub add_frame: bool,
    /// Add `files.face_catch` (versions 10 to 13).
    pub add_face_catch: bool,
}

/// The schema versions the index can open.
pub open spec fn known_version(version: int) -> bool {
    version == 0 || (2 <= version <= 13) || version == SCHEMA_VERSION
}

/// The message of a database at a schema version the index cannot open.
pub open spec fn unsupported_version(version: int) -> Seq<char> {
    "unsupported index schema version "@ + crate::judging::int_text(version)
}

/// What opening a database at `version` does, or why it cannot be opened.
/// A new database (version 0) and a current one only get the tables they
/// lack.
pub fn migration_plan(version: i64) -> (r: Result<Migration, String>)
    ensures
        !known_version(version as int) ==> (r matches Err(e) && e@ == unsupported_version(
            version as int,
        )),
        known_version(version as int) ==> r == Ok::<Migration, String>(
            Migration {
                drop_files: version != 0 && version < 10,
                backfill_folders: version == 7,
                add_pick: version == 2,
                add_label: version != 0 && version != SCHEMA_VERSION && version < 5,
                add_label_known: version != 0 && version != SCHEMA_VERSION && version < 6,
                move_flags: version != 0 && version < 11,
                add_extractor: 10 <= version < 12,
                add_frame: 10 <= version < 13,
                add_face_catch: 10 <= version < 14,
            },
        ),
{
    if !(version == 0 || (2 <= version && version <= 13) || version == SCHEMA_VERSION) {
        let n = crate::judging::int_to_text(version);
        return Err(concat("unsupported index schema version ", n.as_str()));
    }
    Ok(
        Migration {
            drop_files: version != 0 && version < 10,
            backfill_folders: version == 7,
            add_pick: version == 2,
            add_label: version != 0 && version != SCHEMA_VERSION && version < 5,
            add_label_known: version != 0 && version != SCHEMA_VERSION && version < 6,
            move_flags: version != 0 && version < 11,
            add_extractor: 10 <= version && version < 12,
            add_frame: 10 <= version && version < 13,
            add_face_catch: 10 <= version && version < 14,
        },
    )
}

} // verus!
