//! The tree walker's policy: which entries of a listed tree are fingerprinted.
//!
//! The filesystem enumeration itself happens outside the library; it hands in
//! one `WalkEntry` per directory entry, in an order where a directory comes
//! before anything below it.  The library decides, and proves, which files
//! survive the skip rules.

use vstd::prelude::*;
use vstd::string::*;
use crate::errors::{ErrorKind, SyncError};
use crate::file_list::{strip_prefix_spec, FileListElement};
use crate::text::{is_under, path_suffix_matches, str_eq, under_dir};

verus! {

/// The ignore rules that a run works with.
#[derive(Debug)]
pub struct Config {
    /// Names of directories pruned directly under the root.
    pub ignore_dirs: Vec<String>,
    /// Path suffixes excluded anywhere in the tree.
    pub ignore_paths: Vec<String>,
}

impl Config {
    pub fn new(ignore_dirs: Vec<String>, ignore_paths: Vec<String>) -> (c: Config)
        ensures
            c.ignore_dirs == ignore_dirs,
            c.ignore_paths == ignore_paths,
    {
        Config { ignore_dirs, ignore_paths }
    }
}

/// One directory entry, as the enumeration saw it.
#[derive(Debug)]
pub struct WalkEntry {
    /// The entry's full path.
    pub path: String,
    /// The entry's final path component.
    pub file_name: String,
    /// How many components below the walked root the entry lies; the root
    /// itself has depth zero.
    pub depth: usize,
    /// Whether the entry is a directory.
    pub is_dir: bool,
    /// Whether the entry is a regular file (a symbolic link is neither).
    pub is_file: bool,
    /// Byte length, for a regular file.
    pub size: u64,
    /// Last-modification time, for a regular file.
    pub modified: u64,
    /// Permission bits, for a regular file.
    pub mode: u32,
}

/// Whether `name` is one of the configured directory names.
pub open spec fn in_ignore_dirs(cfg: Config, name: Seq<char>) -> bool {
    exists|i: int| 0 <= i < cfg.ignore_dirs@.len() && cfg.ignore_dirs@[i]@ == name
}

/// Whether `path` ends in one of the configured suffixes.
pub open spec fn matches_ignore_path(cfg: Config, path: Seq<char>) -> bool {
    exists|i: int|
        0 <= i < cfg.ignore_paths@.len() && path_suffix_matches(path, cfg.ignore_paths@[i]@)
}

/// The skip rule: a directory directly under the root is skipped when its
/// name is ignored; everything else is skipped when its path ends in an
/// ignored suffix.
pub open spec fn should_skip_spec(e: WalkEntry, cfg: Config) -> bool {
    if e.depth == 1 && e.is_dir {
        in_ignore_dirs(cfg, e.file_name@)
    } else {
        matches_ignore_path(cfg, e.path@)
    }
}

/// Whether the name equals the given directory name, when there is one.
pub fn dir_is_name(dir: &str, filename: Option<&str>) -> (r: bool)
    ensures
        r == match filename {
            Some(name) => name@ == dir@,
            None => false,
        },
{
    match filename {
        Some(name) => str_eq(name, dir),
        None => false,
    }
}

/// Whether the entry falls to the skip rule.
pub fn should_skip(entry: &WalkEntry, config: &Config) -> (r: bool)
    ensures
        r == should_skip_spec(*entry, *config),
{
    if entry.depth == 1 && entry.is_dir {
        let mut i: usize = 0;
        while i < config.ignore_dirs.len()
            invariant
                i <= config.ignore_dirs@.len(),
                entry.depth == 1 && entry.is_dir,
                forall|j: int| 0 <= j < i ==> config.ignore_dirs@[j]@ != entry.file_name@,
            decreases config.ignore_dirs@.len() - i,
        {
            if dir_is_name(config.ignore_dirs[i].as_str(), Some(entry.file_name.as_str())) {
                proof {
                    assert(config.ignore_dirs@[i as int]@ == entry.file_name@);
                }
                return true;
            }
            i += 1;
        }
        false
    } else {
        let mut i: usize = 0;
        while i < config.ignore_paths.len()
            invariant
                i <= config.ignore_paths@.len(),
                !(entry.depth == 1 && entry.is_dir),
                forall|j: int|
                    0 <= j < i ==> !path_suffix_matches(
                        entry.path@,
                        config.ignore_paths@[j]@,
                    ),
            decreases config.ignore_paths@.len() - i,
        {
            if crate::text::path_ends_with(config.ignore_paths[i].as_str(), entry.path.as_str()) {
                proof {
                    assert(path_suffix_matches(entry.path@, config.ignore_paths@[i as int]@));
                }
                return true;
            }
            i += 1;
        }
        false
    }
}

/// Whether `path` lies below any of the pruned directories.
pub open spec fn under_any(pruned: Seq<Seq<char>>, path: Seq<char>) -> bool {
    exists|i: int| 0 <= i < pruned.len() && under_dir(pruned[i], path)
}

/// The files that survive, walking the listing front to back while growing
/// the set of pruned directory paths.
pub open spec fn select_rec(entries: Seq<WalkEntry>, cfg: Config, pruned: Seq<Seq<char>>) -> Seq<
    WalkEntry,
>
    decreases entries.len(),
{
    if entries.len() == 0 {
        Seq::empty()
    } else {
        let e = entries[0];
        let rest = entries.drop_first();
        if under_any(pruned, e.path@) {
            select_rec(rest, cfg, pruned)
        } else if should_skip_spec(e, cfg) {
            select_rec(rest, cfg, pruned.push(e.path@))
        } else if e.is_file {
            seq![e] + select_rec(rest, cfg, pruned)
        } else {
            select_rec(rest, cfg, pruned)
        }
    }
}

/// The files of a listing that the run fingerprints.
pub open spec fn select_spec(entries: Seq<WalkEntry>, cfg: Config) -> Seq<WalkEntry> {
    select_rec(entries, cfg, Seq::empty())
}

/// Whether `path` lies below any of a vector of directory paths.
fn under_any_exec(pruned: &Vec<String>, path: &str) -> (r: bool)
    ensures
        r == under_any(pruned@.map_values(|s: String| s@), path@),
{
    let ghost pv = pruned@.map_values(|s: String| s@);
    let mut i: usize = 0;
    while i < pruned.len()
        invariant
            i <= pruned@.len(),
            pv == pruned@.map_values(|s: String| s@),
            forall|j: int| 0 <= j < i ==> !under_dir(pv[j], path@),
        decreases pruned@.len() - i,
    {
        if is_under(pruned[i].as_str(), path) {
            proof {
                assert(under_dir(pv[i as int], path@));
            }
            return true;
        }
        i += 1;
    }
    false
}

/// Keep the files that the skip rules let through, pruning the subtree of
/// every skipped entry.
pub fn select_files(entries: Vec<WalkEntry>, config: &Config) -> (kept: Vec<WalkEntry>)
    ensures
        kept@ == select_spec(entries@, *config),
{
    let ghost all = entries@;
    let mut rest = entries;
    let mut kept: Vec<WalkEntry> = Vec::new();
    let mut pruned: Vec<String> = Vec::new();
    proof {
        assert(kept@ + select_rec(rest@, *config, pruned@.map_values(|s: String| s@)) =~= select_rec(
            all,
            *config,
            Seq::empty(),
        )) by {
            assert(pruned@.map_values(|s: String| s@) =~= Seq::<Seq<char>>::empty());
            assert(kept@ + select_rec(all, *config, Seq::empty()) =~= select_rec(
                all,
                *config,
                Seq::empty(),
            ));
        }
    }
    while rest.len() > 0
        invariant
            kept@ + select_rec(rest@, *config, pruned@.map_values(|s: String| s@)) == select_spec(
                all,
                *config,
            ),
        decreases rest@.len(),
    {
        let ghost rest0 = rest@;
        let ghost pv = pruned@.map_values(|s: String| s@);
        let e = rest.remove(0);
        proof {
            assert(rest@ =~= rest0.drop_first());
        }
        if under_any_exec(&pruned, e.path.as_str()) {
        } else if should_skip(&e, config) {
            let ghost p = e.path@;
            pruned.push(e.path);
            proof {
                assert(pruned@.map_values(|s: String| s@) =~= pv.push(p));
            }
        } else if e.is_file {
            let ghost k0 = kept@;
            kept.push(e);
            proof {
                assert(kept@ =~= k0 + seq![e]);
                assert(k0 + (seq![e] + select_rec(rest@, *config, pv)) =~= (k0 + seq![e])
                    + select_rec(rest@, *config, pv));
            }
        }
    }
    proof {
        assert(select_rec(rest@, *config, pruned@.map_values(|s: String| s@))
            =~= Seq::<WalkEntry>::empty());
        assert(kept@ + Seq::<WalkEntry>::empty() =~= kept@);
    }
    kept
}

/// A record not at the head of a concatenation sits in its tail.
proof fn lemma_cons_contains(e: WalkEntry, r: Seq<WalkEntry>, x: WalkEntry)
    requires
        (seq![e] + r).contains(x),
        x != e,
    ensures
        r.contains(x),
{
    let j = choose|j: int| 0 <= j < (seq![e] + r).len() && (seq![e] + r)[j] == x;
    assert((seq![e] + r)[j] == r[j - 1]);
}

/// Whatever lies below a pruned directory stays out of the selection.
proof fn lemma_under_pruned_excluded(
    entries: Seq<WalkEntry>,
    cfg: Config,
    pruned: Seq<Seq<char>>,
    x: WalkEntry,
)
    requires
        under_any(pruned, x.path@),
    ensures
        !select_rec(entries, cfg, pruned).contains(x),
    decreases entries.len(),
{
    if entries.len() > 0 {
        let e = entries[0];
        let rest = entries.drop_first();
        if under_any(pruned, e.path@) {
            lemma_under_pruned_excluded(rest, cfg, pruned, x);
        } else if should_skip_spec(e, cfg) {
            let i = choose|i: int| 0 <= i < pruned.len() && under_dir(pruned[i], x.path@);
            assert(pruned.push(e.path@)[i] == pruned[i]);
            assert(under_any(pruned.push(e.path@), x.path@));
            lemma_under_pruned_excluded(rest, cfg, pruned.push(e.path@), x);
        } else if e.is_file {
            lemma_under_pruned_excluded(rest, cfg, pruned, x);
            assert(x != e);
            if select_rec(entries, cfg, pruned).contains(x) {
                lemma_cons_contains(e, select_rec(rest, cfg, pruned), x);
            }
        } else {
            lemma_under_pruned_excluded(rest, cfg, pruned, x);
        }
    }
}

/// A record of the tail also sits in the concatenation.
proof fn lemma_tail_contains(e: WalkEntry, r: Seq<WalkEntry>, x: WalkEntry)
    requires
        r.contains(x),
    ensures
        (seq![e] + r).contains(x),
{
    let j = choose|j: int| 0 <= j < r.len() && r[j] == x;
    assert((seq![e] + r)[j + 1] == x);
}

/// Completeness of the selection, for any starting pruned set: a file that
/// no rule skips, that no pruned directory covers, and that no earlier
/// skipped entry lies above, is kept.
proof fn lemma_select_rec_complete(
    entries: Seq<WalkEntry>,
    cfg: Config,
    pruned: Seq<Seq<char>>,
    j: int,
)
    requires
        0 <= j < entries.len(),
        entries[j].is_file,
        !should_skip_spec(entries[j], cfg),
        !under_any(pruned, entries[j].path@),
        forall|i: int|
            0 <= i < j ==> !(should_skip_spec(#[trigger] entries[i], cfg) && under_dir(
                entries[i].path@,
                entries[j].path@,
            )),
    ensures
        select_rec(entries, cfg, pruned).contains(entries[j]),
    decreases entries.len(),
{
    let e = entries[0];
    let rest = entries.drop_first();
    let x = entries[j];
    if j == 0 {
        assert(!under_any(pruned, e.path@));
        assert((seq![e] + select_rec(rest, cfg, pruned))[0] == e);
    } else {
        assert(rest[j - 1] == entries[j]);
        assert forall|i: int|
            0 <= i < j - 1 implies !(should_skip_spec(#[trigger] rest[i], cfg) && under_dir(
            rest[i].path@,
            rest[j - 1].path@,
        )) by {
            assert(rest[i] == entries[i + 1]);
        }
        if under_any(pruned, e.path@) {
            lemma_select_rec_complete(rest, cfg, pruned, j - 1);
        } else if should_skip_spec(e, cfg) {
            let pruned2 = pruned.push(e.path@);
            assert(!(should_skip_spec(entries[0], cfg) && under_dir(
                entries[0].path@,
                entries[j].path@,
            )));
            assert forall|i: int| 0 <= i < pruned2.len() implies !under_dir(
                pruned2[i],
                x.path@,
            ) by {
                if i < pruned.len() {
                    assert(pruned2[i] == pruned[i]);
                    assert(!under_any(pruned, x.path@));
                } else {
                    assert(pruned2[i] == e.path@);
                }
            }
            lemma_select_rec_complete(rest, cfg, pruned2, j - 1);
        } else if e.is_file {
            lemma_select_rec_complete(rest, cfg, pruned, j - 1);
            lemma_tail_contains(e, select_rec(rest, cfg, pruned), x);
        } else {
            lemma_select_rec_complete(rest, cfg, pruned, j - 1);
        }
    }
}

/// Completeness of the selection: a regular file that no rule skips, with no
/// skipped entry above it earlier in the listing, is kept.  With soundness
/// and the subtree lemma this pins the selected set exactly, so a listing of
/// the same tree — whatever enumeration order put ancestors first — selects
/// the same files.
pub proof fn lemma_selected_complete(entries: Seq<WalkEntry>, cfg: Config, j: int)
    requires
        0 <= j < entries.len(),
        entries[j].is_file,
        !should_skip_spec(entries[j], cfg),
        forall|i: int|
            0 <= i < j ==> !(should_skip_spec(#[trigger] entries[i], cfg) && under_dir(
                entries[i].path@,
                entries[j].path@,
            )),
    ensures
        select_spec(entries, cfg).contains(entries[j]),
{
    lemma_select_rec_complete(entries, cfg, Seq::empty(), j);
}

/// Everything selected is a file that no rule skips and no pruned directory
/// covers.
proof fn lemma_select_rec_sound(
    entries: Seq<WalkEntry>,
    cfg: Config,
    pruned: Seq<Seq<char>>,
    x: WalkEntry,
)
    requires
        select_rec(entries, cfg, pruned).contains(x),
    ensures
        x.is_file,
        !should_skip_spec(x, cfg),
        !under_any(pruned, x.path@),
    decreases entries.len(),
{
    let e = entries[0];
    let rest = entries.drop_first();
    if under_any(pruned, e.path@) {
        lemma_select_rec_sound(rest, cfg, pruned, x);
    } else if should_skip_spec(e, cfg) {
        lemma_select_rec_sound(rest, cfg, pruned.push(e.path@), x);
        assert forall|i: int| 0 <= i < pruned.len() implies !under_dir(pruned[i], x.path@) by {
            if under_dir(pruned[i], x.path@) {
                assert(pruned.push(e.path@)[i] == pruned[i]);
                assert(under_any(pruned.push(e.path@), x.path@));
            }
        }
    } else if e.is_file {
        if x != e {
            lemma_cons_contains(e, select_rec(rest, cfg, pruned), x);
            lemma_select_rec_sound(rest, cfg, pruned, x);
        }
    } else {
        lemma_select_rec_sound(rest, cfg, pruned, x);
    }
}

/// Enforcement of the skip rules, first half: a selected record is a regular
/// file that neither the directory-name rule nor the suffix rule skips — so
/// a file whose path ends in an ignored suffix never reaches the
/// fingerprint, whatever its contents.
pub proof fn lemma_selected_not_skipped(entries: Seq<WalkEntry>, cfg: Config, x: WalkEntry)
    requires
        select_spec(entries, cfg).contains(x),
    ensures
        x.is_file,
        !should_skip_spec(x, cfg),
{
    lemma_select_rec_sound(entries, cfg, Seq::empty(), x);
}

/// Whatever is selected was in the listing.
proof fn lemma_select_rec_subset(
    entries: Seq<WalkEntry>,
    cfg: Config,
    pruned: Seq<Seq<char>>,
    x: WalkEntry,
)
    requires
        select_rec(entries, cfg, pruned).contains(x),
    ensures
        entries.contains(x),
    decreases entries.len(),
{
    let e = entries[0];
    let rest = entries.drop_first();
    if !under_any(pruned, e.path@) && !should_skip_spec(e, cfg) && e.is_file && x == e {
        assert(entries[0] == x);
    } else {
        if !under_any(pruned, e.path@) && !should_skip_spec(e, cfg) && e.is_file {
            lemma_cons_contains(e, select_rec(rest, cfg, pruned), x);
        }
        lemma_select_rec_subset(
            rest,
            cfg,
            if !under_any(pruned, e.path@) && should_skip_spec(e, cfg) {
                pruned.push(e.path@)
            } else {
                pruned
            },
            x,
        );
        let j = choose|j: int| 0 <= j < rest.len() && rest[j] == x;
        assert(entries[j + 1] == x);
    }
}

/// A listing names each path once and a directory before what lies below
/// it — as a walk of a real tree does.
pub open spec fn well_ordered_listing(entries: Seq<WalkEntry>) -> bool {
    &&& forall|a: int, b: int|
        0 <= a < b < entries.len() ==> entries[a].path@ != entries[b].path@
    &&& forall|a: int, b: int|
        0 <= a < entries.len() && 0 <= b < entries.len() && under_dir(
            #[trigger] entries[a].path@,
            #[trigger] entries[b].path@,
        ) ==> a < b
}

/// What the selection holds, exactly: a regular file that no rule skips and
/// that no skipped entry of the listing lies above.  The right-hand side
/// speaks only of which entries the listing holds, not of their order.
pub proof fn lemma_selection_characterized(entries: Seq<WalkEntry>, cfg: Config, j: int)
    requires
        well_ordered_listing(entries),
        0 <= j < entries.len(),
    ensures
        select_spec(entries, cfg).contains(entries[j]) <==> (entries[j].is_file
            && !should_skip_spec(entries[j], cfg) && forall|i: int|
            0 <= i < entries.len() ==> !(should_skip_spec(#[trigger] entries[i], cfg) && under_dir(
                entries[i].path@,
                entries[j].path@,
            ))),
{
    if select_spec(entries, cfg).contains(entries[j]) {
        lemma_selected_not_skipped(entries, cfg, entries[j]);
        assert forall|i: int| 0 <= i < entries.len() implies !(should_skip_spec(
            #[trigger] entries[i],
            cfg,
        ) && under_dir(entries[i].path@, entries[j].path@)) by {
            if should_skip_spec(entries[i], cfg) && under_dir(
                entries[i].path@,
                entries[j].path@,
            ) {
                assert(i < j);
                lemma_skipped_subtree_excluded(entries, cfg, i, j);
            }
        }
    }
    if entries[j].is_file && !should_skip_spec(entries[j], cfg) && forall|i: int|
        0 <= i < entries.len() ==> !(should_skip_spec(#[trigger] entries[i], cfg) && under_dir(
            entries[i].path@,
            entries[j].path@,
        )) {
        lemma_selected_complete(entries, cfg, j);
    }
}

/// Two listings of the same entries — in whatever orders put directories
/// before their contents — select the same files.
pub proof fn lemma_selection_order_independent(
    e1: Seq<WalkEntry>,
    e2: Seq<WalkEntry>,
    cfg: Config,
    x: WalkEntry,
)
    requires
        well_ordered_listing(e1),
        well_ordered_listing(e2),
        forall|y: WalkEntry| e1.contains(y) <==> e2.contains(y),
    ensures
        select_spec(e1, cfg).contains(x) <==> select_spec(e2, cfg).contains(x),
{
    lemma_selection_one_way(e1, e2, cfg, x);
    lemma_selection_one_way(e2, e1, cfg, x);
}

/// One direction of order independence.
proof fn lemma_selection_one_way(
    e1: Seq<WalkEntry>,
    e2: Seq<WalkEntry>,
    cfg: Config,
    x: WalkEntry,
)
    requires
        well_ordered_listing(e1),
        well_ordered_listing(e2),
        forall|y: WalkEntry| e1.contains(y) <==> e2.contains(y),
    ensures
        select_spec(e1, cfg).contains(x) ==> select_spec(e2, cfg).contains(x),
{
    if select_spec(e1, cfg).contains(x) {
        lemma_select_rec_subset(e1, cfg, Seq::empty(), x);
        let j1 = choose|j: int| 0 <= j < e1.len() && e1[j] == x;
        lemma_selection_characterized(e1, cfg, j1);
        assert(e2.contains(x));
        let j2 = choose|j: int| 0 <= j < e2.len() && e2[j] == x;
        assert forall|i: int| 0 <= i < e2.len() implies !(should_skip_spec(
            #[trigger] e2[i],
            cfg,
        ) && under_dir(e2[i].path@, e2[j2].path@)) by {
            if should_skip_spec(e2[i], cfg) && under_dir(e2[i].path@, e2[j2].path@) {
                assert(e2.contains(e2[i]));
                assert(e1.contains(e2[i]));
                let i1 = choose|i1: int| 0 <= i1 < e1.len() && e1[i1] == e2[i];
                assert(should_skip_spec(e1[i1], cfg) && under_dir(
                    e1[i1].path@,
                    e1[j1].path@,
                ));
            }
        }
        lemma_selection_characterized(e2, cfg, j2);
    }
}

/// The subtree of a skipped entry is excluded, whatever the pruned set so
/// far.
proof fn lemma_skip_subtree_rec(
    entries: Seq<WalkEntry>,
    cfg: Config,
    pruned: Seq<Seq<char>>,
    i: int,
    j: int,
)
    requires
        0 <= i < j < entries.len(),
        should_skip_spec(entries[i], cfg),
        under_dir(entries[i].path@, entries[j].path@),
        forall|a: int, b: int| 0 <= a < b < entries.len() ==> entries[a].path@ != entries[b].path@,
    ensures
        !select_rec(entries, cfg, pruned).contains(entries[j]),
    decreases entries.len(),
{
    let e = entries[0];
    let rest = entries.drop_first();
    let x = entries[j];
    assert forall|a: int, b: int| 0 <= a < b < rest.len() implies rest[a].path@
        != rest[b].path@ by {
        assert(rest[a] == entries[a + 1]);
        assert(rest[b] == entries[b + 1]);
    }
    if i > 0 {
        assert(rest[i - 1] == entries[i]);
        assert(rest[j - 1] == entries[j]);
    }
    if under_any(pruned, e.path@) {
        if i == 0 {
            let p = choose|p: int| 0 <= p < pruned.len() && under_dir(pruned[p], e.path@);
            crate::text::lemma_under_dir_trans(pruned[p], e.path@, x.path@);
            assert(under_any(pruned, x.path@));
            lemma_under_pruned_excluded(entries, cfg, pruned, x);
        } else {
            lemma_skip_subtree_rec(rest, cfg, pruned, i - 1, j - 1);
        }
    } else if should_skip_spec(e, cfg) {
        if i == 0 {
            let pruned2 = pruned.push(e.path@);
            assert(pruned2[pruned.len() as int] == e.path@);
            assert(under_any(pruned2, x.path@));
            lemma_under_pruned_excluded(rest, cfg, pruned2, x);
        } else {
            lemma_skip_subtree_rec(rest, cfg, pruned.push(e.path@), i - 1, j - 1);
        }
    } else if e.is_file {
        assert(i > 0);
        lemma_skip_subtree_rec(rest, cfg, pruned, i - 1, j - 1);
        assert(entries[0].path@ != entries[j].path@);
        if select_rec(entries, cfg, pruned).contains(x) {
            lemma_cons_contains(e, select_rec(rest, cfg, pruned), x);
        }
    } else {
        assert(i > 0);
        lemma_skip_subtree_rec(rest, cfg, pruned, i - 1, j - 1);
    }
}

/// Enforcement of the skip rules, second half: everything below a skipped
/// entry — in particular a file under an ignored top-level directory — is
/// excluded from the selection, provided the listing names the directory
/// before what lies below it and no path twice.
pub proof fn lemma_skipped_subtree_excluded(entries: Seq<WalkEntry>, cfg: Config, i: int, j: int)
    requires
        0 <= i < j < entries.len(),
        should_skip_spec(entries[i], cfg),
        under_dir(entries[i].path@, entries[j].path@),
        forall|a: int, b: int| 0 <= a < b < entries.len() ==> entries[a].path@ != entries[b].path@,
    ensures
        !select_spec(entries, cfg).contains(entries[j]),
{
    lemma_skip_subtree_rec(entries, cfg, Seq::empty(), i, j);
}

/// Make one record per selected file, each with its metadata snapshot and
/// its cache key — the path relative to `root` — fixed at creation.  A file
/// whose path does not lie under the root is a fatal prefix error.
pub fn collect_records(files: Vec<WalkEntry>, root: &str) -> (r: Result<
    Vec<FileListElement>,
    SyncError,
>)
    ensures
        match r {
            Ok(recs) => recs@.len() == files@.len() && forall|i: int|
                0 <= i < files@.len() ==> recs@[i].path == files@[i].path && strip_prefix_spec(
                    files@[i].path@,
                    root@,
                ) == Some(recs@[i].cache_key@) && recs@[i].checksum@ == Seq::<char>::empty()
                    && recs@[i].size == files@[i].size && recs@[i].modified == files@[i].modified
                    && recs@[i].mode == files@[i].mode,
            Err(e) => e.kind_spec() == ErrorKind::Prefix && exists|i: int|
                0 <= i < files@.len() && strip_prefix_spec(files@[i].path@, root@) is None,
        },
{
    let ghost all = files@;
    let mut rest = files;
    let mut recs: Vec<FileListElement> = Vec::new();
    proof {
        assert(rest@ =~= all.skip(0));
    }
    while rest.len() > 0
        invariant
            all == files@,
            recs@.len() + rest@.len() == all.len(),
            rest@ == all.skip(recs@.len() as int),
            forall|i: int|
                0 <= i < recs@.len() ==> recs@[i].path == all[i].path && strip_prefix_spec(
                    all[i].path@,
                    root@,
                ) == Some(recs@[i].cache_key@) && recs@[i].checksum@ == Seq::<char>::empty()
                    && recs@[i].size == all[i].size && recs@[i].modified == all[i].modified
                    && recs@[i].mode == all[i].mode,
        decreases rest@.len(),
    {
        let ghost n = recs@.len() as int;
        let ghost rest0 = rest@;
        let f = rest.remove(0);
        proof {
            assert(rest@ =~= rest0.drop_first());
            assert(rest0[0] == all.skip(n)[0]);
            assert(f == all[n]);
            assert(rest@ =~= all.skip(n + 1));
        }
        let mut rec = FileListElement::new(f.path, f.size, f.modified, f.mode);
        match rec.assign_cache_key(root) {
            Ok(()) => {},
            Err(e) => {
                proof {
                    assert(0 <= n < files@.len());
                    assert(strip_prefix_spec(files@[n].path@, root@) is None);
                }
                return Err(e);
            },
        }
        recs.push(rec);
    }
    Ok(recs)
}

} // verus!
