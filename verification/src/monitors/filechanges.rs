//! The file monitor: it keeps a snapshot of the hashes of the files under each
//! monitored directory, compares each fresh snapshot with the kept one, and
//! reports the files created, deleted and changed.
use vstd::prelude::*;
use vstd::string::*;
use vstd::utf8::encode_utf8;
use filesystem_hashing::snapshot::{FileMetadata, Snapshot};
use std::sync::{Arc, Mutex};
use crate::boobytrap::EventMonitor;
use crate::settings::{error_parts, missing_text_error, text_of, list_of, find_value, ConfigError, ConfigErrorKind, Settings};
use crate::text::{contains_string, join_on, law_split_then_join, lines_of, keep_nonempty, nonempty, pieces, remove_char, split_on, str_lines, views, without, Sep};

verus! {

/// One hashed file of a snapshot.
#[derive(Clone, Debug)]
pub struct SnapshotFile {
    pub path: String,
    pub check_sum: Vec<u8>,
    pub size: u64,
    pub ino: u64,
    pub ctime: i64,
    pub mtime: i64,
}

/// A snapshot of the files under one directory: each file, by the path it is
/// kept under, with its checksum.
#[derive(Clone, Debug)]
pub struct SnapshotState {
    pub root_path: String,
    pub black_list: Vec<String>,
    pub hash_type: HashKind,
    pub uuid: String,
    pub date_created: i64,
    pub files: Vec<(String, SnapshotFile)>,
}

/// The files of a snapshot by the path they are kept under; where a path
/// occurs twice, the later file counts, as in a map filled in order.
pub open spec fn file_map(files: Seq<(String, SnapshotFile)>) -> Map<Seq<char>, SnapshotFile>
    decreases files.len(),
{
    if files.len() == 0 {
        Map::empty()
    } else {
        file_map(files.drop_last()).insert(files.last().0@, files.last().1)
    }
}

/// What comparing the files `old` with the files `new` gives: created are the
/// paths only `new` has, deleted those only `old` has, each once; changed are
/// the files of `new` whose checksum differs from that of the same path in
/// `old`.
pub open spec fn compared(
    old: Seq<(String, SnapshotFile)>,
    new: Seq<(String, SnapshotFile)>,
    r: SnapshotCompareResult,
) -> bool {
    let a = file_map(old);
    let b = file_map(new);
    &&& views(r.created@).no_duplicates()
    &&& views(r.created@).to_set() == b.dom().difference(a.dom())
    &&& views(r.deleted@).no_duplicates()
    &&& views(r.deleted@).to_set() == a.dom().difference(b.dom())
    &&& views(r.changed@).to_set() == Set::new(
        |p: Seq<char>|
            exists|k: Seq<char>|
                a.dom().contains(k) && b.dom().contains(k) && a[k].check_sum@ != b[k].check_sum@
                    && b[k].path@ == p,
    )
}

/// Whether `old` and `new` hold the same paths with the same checksums.
pub open spec fn same_files(old: Seq<(String, SnapshotFile)>, new: Seq<(String, SnapshotFile)>) -> bool {
    &&& file_map(old).dom() == file_map(new).dom()
    &&& forall|k: Seq<char>|
        #[trigger] file_map(old).dom().contains(k) ==> file_map(old)[k].check_sum@ == file_map(
            new,
        )[k].check_sum@
}

/// A sequence whose set of members is empty is empty.
pub proof fn lemma_empty_set_empty_seq(s: Seq<Seq<char>>)
    requires
        s.to_set() == Set::<Seq<char>>::empty(),
    ensures
        s.len() == 0,
{
    if s.len() > 0 {
        assert(s.to_set().contains(s[0]));
    }
}

/// Law: comparing files with the same paths and checksums finds nothing
/// created, deleted or changed.
pub proof fn law_same_files_compare_empty(
    old: Seq<(String, SnapshotFile)>,
    new: Seq<(String, SnapshotFile)>,
    r: SnapshotCompareResult,
)
    requires
        same_files(old, new),
        compared(old, new, r),
    ensures
        r.created@.len() == 0,
        r.deleted@.len() == 0,
        r.changed@.len() == 0,
{
    let a = file_map(old);
    let b = file_map(new);
    assert(b.dom().difference(a.dom()) =~= Set::empty());
    assert(a.dom().difference(b.dom()) =~= Set::empty());
    assert(views(r.changed@).to_set() =~= Set::empty()) by {
        assert forall|p: Seq<char>| !views(r.changed@).to_set().contains(p) by {
            if views(r.changed@).to_set().contains(p) {
                let k = choose|k: Seq<char>|
                    a.dom().contains(k) && b.dom().contains(k) && a[k].check_sum@ != b[k].check_sum@
                        && b[k].path@ == p;
                assert(a.dom().contains(k));
            }
        }
    }
    lemma_empty_set_empty_seq(views(r.created@));
    lemma_empty_set_empty_seq(views(r.deleted@));
    lemma_empty_set_empty_seq(views(r.changed@));
}

/// The hash function of the file snapshots.
#[derive(Clone, Copy, Debug, PartialEq, Eq, Structural)]
pub enum HashKind {
    Blake3,
    Sha3,
    Md5,
}

/// How the files under the monitored directories changed.
#[derive(Clone, Copy, Debug, PartialEq, Eq, Structural)]
pub enum SnapshotChangeType {
    NoChange,
    Created,
    Deleted,
    Changed,
}

/// The files created, deleted and changed since the last snapshot.
#[derive(Debug)]
pub struct SnapshotCompareResult {
    pub created: Vec<String>,
    pub deleted: Vec<String>,
    pub changed: Vec<String>,
}

/// What a check of the file monitor reports: nothing, or the files of the
/// kind of change that counts most (changed over deleted over created).
#[derive(Debug)]
pub enum FsAlert {
    Unchanged,
    Created(Vec<String>),
    Deleted(Vec<String>),
    Changed(Vec<String>),
}

/// The state of the file monitor.
pub struct FileChanges {
    pub triggered: bool,
    pub step: u16,
    pub monitored_directories: Vec<String>,
    pub snapshots: Vec<SnapshotState>,
    pub hash_type: HashKind,
    pub settings_map: Settings,
    pub black_list: Vec<String>,
    pub app_cache_path: String,
}

/// The kind of change that a comparison with these lists shows: changed files
/// count over deleted ones, and deleted over created ones.
pub open spec fn change_kind(created: nat, deleted: nat, changed: nat) -> SnapshotChangeType {
    if changed > 0 {
        SnapshotChangeType::Changed
    } else if deleted > 0 {
        SnapshotChangeType::Deleted
    } else if created > 0 {
        SnapshotChangeType::Created
    } else {
        SnapshotChangeType::NoChange
    }
}

/// Law: a comparison that found any created, deleted or changed file reports
/// a change, and the kind reported is the one that counts most.
pub proof fn law_changes_reported(created: nat, deleted: nat, changed: nat)
    ensures
        (created > 0 || deleted > 0 || changed > 0) <==> change_kind(created, deleted, changed)
            != SnapshotChangeType::NoChange,
        changed > 0 ==> change_kind(created, deleted, changed) == SnapshotChangeType::Changed,
        changed == 0 && deleted > 0 ==> change_kind(created, deleted, changed)
            == SnapshotChangeType::Deleted,
        changed == 0 && deleted == 0 && created > 0 ==> change_kind(created, deleted, changed)
            == SnapshotChangeType::Created,
{
}

/// The kind of change that `r` shows.
pub open spec fn result_kind(r: SnapshotCompareResult) -> SnapshotChangeType {
    change_kind(r.created@.len(), r.deleted@.len(), r.changed@.len())
}

/// One of the three lists of a comparison: 0 created, 1 deleted, 2 changed.
pub open spec fn listed(r: SnapshotCompareResult, which: nat) -> Seq<Seq<char>> {
    if which == 0 {
        views(r.created@)
    } else if which == 1 {
        views(r.deleted@)
    } else {
        views(r.changed@)
    }
}

/// The lists of the comparisons that were made, one after the other.
pub open spec fn gathered(outcomes: Seq<Option<SnapshotCompareResult>>, which: nat) -> Seq<Seq<char>>
    decreases outcomes.len(),
{
    if outcomes.len() == 0 {
        Seq::empty()
    } else {
        gathered(outcomes.drop_last(), which) + match outcomes.last() {
            Some(r) => listed(r, which),
            None => Seq::empty(),
        }
    }
}

/// How many paths the `which` list of one outcome holds; none where the
/// snapshot could not be compared.
pub open spec fn listed_len(outcome: Option<SnapshotCompareResult>, which: nat) -> nat {
    match outcome {
        Some(r) => listed(r, which).len(),
        None => 0,
    }
}

/// How many paths the `which` lists of all outcomes hold together.
pub open spec fn total_listed(outcomes: Seq<Option<SnapshotCompareResult>>, which: nat) -> nat
    decreases outcomes.len(),
{
    if outcomes.len() == 0 {
        0
    } else {
        total_listed(outcomes.drop_last(), which) + listed_len(outcomes.last(), which)
    }
}

/// The outcomes before place `k` hold no more paths than all of them, less
/// those of the outcome at `k`.
pub proof fn lemma_total_listed_prefix(outcomes: Seq<Option<SnapshotCompareResult>>, which: nat, k: int)
    requires
        0 <= k < outcomes.len(),
    ensures
        total_listed(outcomes.take(k), which) + listed_len(outcomes[k], which) <= total_listed(outcomes, which),
    decreases outcomes.len(),
{
    let n = outcomes.len() - 1;
    let init = outcomes.drop_last();
    if k == n {
        assert(outcomes.take(k) =~= init);
    } else {
        lemma_total_listed_prefix(init, which, k);
        assert(init.take(k) =~= outcomes.take(k));
        assert(init[k] == outcomes[k]);
    }
}

/// Law: the gathered `which` list is every compared snapshot's `which` list,
/// one after the other in the order of the snapshots: it holds as many paths
/// as they do together, and the `j`-th path of the `k`-th outcome stands right
/// after the paths of the outcomes before it. So no directory's created,
/// deleted or changed files are lost when several directories change.
pub proof fn law_gathered_concatenates(outcomes: Seq<Option<SnapshotCompareResult>>, which: nat)
    ensures
        gathered(outcomes, which).len() == total_listed(outcomes, which),
        forall|k: int, j: int|
            #![trigger listed(outcomes[k]->0, which)[j]]
            0 <= k < outcomes.len() && outcomes[k] is Some && 0 <= j < listed(outcomes[k]->0, which).len()
                ==> gathered(outcomes, which)[total_listed(outcomes.take(k), which) + j]
                    == listed(outcomes[k]->0, which)[j]
                && gathered(outcomes, which).contains(listed(outcomes[k]->0, which)[j]),
    decreases outcomes.len(),
{
    if outcomes.len() > 0 {
        let n = outcomes.len() - 1;
        let init = outcomes.drop_last();
        law_gathered_concatenates(init, which);
        let g = gathered(outcomes, which);
        let g0 = gathered(init, which);
        assert(g.len() == total_listed(outcomes, which));
        assert forall|k: int, j: int|
            #![trigger listed(outcomes[k]->0, which)[j]]
            0 <= k < outcomes.len() && outcomes[k] is Some && 0 <= j < listed(outcomes[k]->0, which).len()
                implies g[total_listed(outcomes.take(k), which) + j] == listed(outcomes[k]->0, which)[j]
                && g.contains(listed(outcomes[k]->0, which)[j]) by {
            let at = total_listed(outcomes.take(k), which) + j;
            if k < n {
                assert(init[k] == outcomes[k]);
                assert(init.take(k) =~= outcomes.take(k));
                lemma_total_listed_prefix(init, which, k);
                assert(g0[at] == listed(init[k]->0, which)[j]);
                assert(g[at] == g0[at]);
            } else {
                assert(outcomes.take(k) =~= init);
                assert(outcomes.last() == outcomes[k]);
                assert(g[at] == listed(outcomes[k]->0, which)[j]);
            }
            assert(0 <= at < g.len()) by {
                lemma_total_listed_prefix(outcomes, which, k);
            }
        }
    }
}

/// The hash function that `fs_mon_hash_type` names.
pub open spec fn hash_kind_of(name: Seq<char>) -> HashKind {
    if name == "SHA3"@ {
        HashKind::Sha3
    } else if name == "MD5"@ {
        HashKind::Md5
    } else {
        HashKind::Blake3
    }
}

/// The hash function that the setting `fs_mon_hash_type` names: "SHA3" and
/// "MD5" by those names, BLAKE3 for "blake3" and for anything else.
pub fn get_hash_type(settings_map: &Settings) -> (r: Result<HashKind, ConfigError>)
    ensures
        match r {
            Ok(k) => {
                &&& text_of(settings_map.entries@, "fs_mon_hash_type"@) is Some
                &&& k == hash_kind_of(text_of(settings_map.entries@, "fs_mon_hash_type"@)->0)
            },
            Err(e) => missing_text_error(settings_map.entries@, "fs_mon_hash_type"@, e),
        },
{
    let name = settings_map.get_text("fs_mon_hash_type")?;
    if name == String::from_str("blake3") {
        proof { reveal_strlit("blake3"); reveal_strlit("SHA3"); reveal_strlit("MD5"); }
        assert(name@ == "blake3"@);
        assert("blake3"@.len() == 6 && "SHA3"@.len() == 4 && "MD5"@.len() == 3);
        assert(name@ != "SHA3"@);
        assert(name@ != "MD5"@);
        Ok(HashKind::Blake3)
    } else if name == String::from_str("SHA3") {
        Ok(HashKind::Sha3)
    } else if name == String::from_str("MD5") {
        Ok(HashKind::Md5)
    } else {
        Ok(HashKind::Blake3)
    }
}

/// The blacklist: the non-empty lines of the blacklist file, none if it could
/// not be read.
pub fn load_blacklist(contents: Option<&str>) -> (black_list: Vec<String>)
    ensures
        views(black_list@) == match contents {
            Some(t) => nonempty(str_lines(t@)),
            None => Seq::empty(),
        },
{
    match contents {
        Some(t) => keep_nonempty(lines_of(t)),
        None => {
            let v = Vec::new();
            assert(views(v@) =~= Seq::empty());
            v
        },
    }
}

/// The name of the environment variable that a monitored directory entry
/// stands for: the entry without its `'$'` signs, if it has any.
pub open spec fn env_variable_spec(entry: Seq<char>) -> Option<Seq<char>> {
    if entry.contains('$') {
        Some(without(entry, '$'))
    } else {
        None
    }
}

/// The name of the environment variable that `entry` stands for, if any.
pub fn env_variable_of(entry: &str) -> (r: Option<String>)
    ensures
        match r {
            Some(v) => env_variable_spec(entry@) == Some(v@),
            None => env_variable_spec(entry@) is None,
        },
{
    let cs = crate::text::chars_of(entry);
    let n = cs.len();
    let mut i: usize = 0;
    while i < n
        invariant
            cs@ == entry@,
            n == cs@.len(),
            i <= n,
            forall|k: int| 0 <= k < i ==> entry@[k] != '$',
        decreases n - i,
    {
        if cs[i] == '$' {
            assert(entry@[i as int] == '$');
            return Some(remove_char(entry, '$'));
        }
        i = i + 1;
    }
    None
}

/// The monitored directories that the entries stand for, in order: an entry
/// with a `'$'` stands for the `':'`-separated parts of its variable's value,
/// any other entry for itself.
pub open spec fn expanded(entries: Seq<Seq<char>>, values: Seq<Seq<char>>) -> Seq<Seq<char>>
    decreases entries.len(),
{
    if entries.len() == 0 || values.len() < entries.len() {
        Seq::empty()
    } else {
        let k = entries.len() - 1;
        expanded(entries.drop_last(), values.take(k)) + if entries.last().contains('$') {
            split_on(values[k], ':')
        } else {
            seq![entries.last()]
        }
    }
}

/// The monitored directories: `values[i]` is the value of the variable that
/// `entries[i]` names, where it names one.
pub fn expand_directories(entries: &Vec<String>, values: &Vec<String>) -> (dirs: Vec<String>)
    requires
        values@.len() == entries@.len(),
    ensures
        views(dirs@) == expanded(views(entries@), views(values@)),
{
    let n = entries.len();
    let mut dirs: Vec<String> = Vec::new();
    let mut i: usize = 0;
    while i < n
        invariant
            n == entries@.len() == values@.len(),
            i <= n,
            views(dirs@) == expanded(views(entries@).take(i as int), views(values@).take(i as int)),
        decreases n - i,
    {
        let ghost es = views(entries@).take(i + 1);
        let ghost vs = views(values@).take(i + 1);
        assert(es.drop_last() =~= views(entries@).take(i as int));
        assert(vs.take(i as int) =~= views(values@).take(i as int));
        assert(es.last() == entries@[i as int]@);
        assert(vs[i as int] == values@[i as int]@);
        let ghost old_views = views(dirs@);
        match env_variable_of(entries[i].as_str()) {
            Some(_) => {
                let mut parts = pieces(values[i].as_str(), Sep::Char(':'));
                let ghost pv = views(parts@);
                dirs.append(&mut parts);
                assert(views(dirs@) =~= old_views + pv);
            },
            None => {
                dirs.push(entries[i].clone());
                assert(views(dirs@) =~= old_views + seq![entries@[i as int]@]);
            },
        }
        i = i + 1;
    }
    assert(views(entries@).take(n as int) =~= views(entries@));
    assert(views(values@).take(n as int) =~= views(values@));
    dirs
}

/// The members of `dirs` that `black_list` does not hold, in order.
pub open spec fn not_blacklisted(dirs: Seq<Seq<char>>, black_list: Seq<Seq<char>>) -> Seq<Seq<char>>
    decreases dirs.len(),
{
    if dirs.len() == 0 {
        Seq::empty()
    } else if black_list.contains(dirs.last()) {
        not_blacklisted(dirs.drop_last(), black_list)
    } else {
        not_blacklisted(dirs.drop_last(), black_list).push(dirs.last())
    }
}

/// The sum of `counts`.
pub open spec fn sum_of(counts: Seq<usize>) -> nat
    decreases counts.len(),
{
    if counts.len() == 0 {
        0
    } else {
        sum_of(counts.drop_last()) + counts.last() as nat
    }
}

/// The number of files in all snapshots, given the number in each; `None`
/// where the total does not fit in a `usize`.
pub fn total_file_count(counts: &Vec<usize>) -> (r: Option<usize>)
    ensures
        match r {
            Some(t) => t == sum_of(counts@),
            None => sum_of(counts@) > usize::MAX,
        },
{
    let n = counts.len();
    let mut total: usize = 0;
    let mut i: usize = 0;
    while i < n
        invariant
            n == counts@.len(),
            i <= n,
            total == sum_of(counts@.take(i as int)),
        decreases n - i,
    {
        assert(counts@.take(i + 1).drop_last() =~= counts@.take(i as int));
        if counts[i] > usize::MAX - total {
            proof { lemma_sum_of_prefix(counts@, i + 1); }
            return None;
        }
        total = total + counts[i];
        i = i + 1;
    }
    assert(counts@.take(n as int) =~= counts@);
    Some(total)
}

/// A prefix sums to no more than the whole.
pub proof fn lemma_sum_of_prefix(counts: Seq<usize>, k: int)
    requires
        0 <= k <= counts.len(),
    ensures
        sum_of(counts.take(k)) <= sum_of(counts),
    decreases counts.len() - k,
{
    if k < counts.len() {
        lemma_sum_of_prefix(counts, k + 1);
        assert(counts.take(k + 1).drop_last() =~= counts.take(k));
    } else {
        assert(counts.take(k) =~= counts);
    }
}

/// The change kind and the gathered lists of the comparisons in `outcomes`;
/// a snapshot that could not be compared adds nothing.
pub fn aggregate_comparisons(outcomes: Vec<Option<SnapshotCompareResult>>) -> (r: (SnapshotChangeType, SnapshotCompareResult))
    ensures
        views(r.1.created@) == gathered(outcomes@, 0),
        views(r.1.deleted@) == gathered(outcomes@, 1),
        views(r.1.changed@) == gathered(outcomes@, 2),
        r.0 == result_kind(r.1),
{
    let ghost all = outcomes@;
    let mut rest = outcomes;
    let mut created: Vec<String> = Vec::new();
    let mut deleted: Vec<String> = Vec::new();
    let mut changed: Vec<String> = Vec::new();
    let n = rest.len();
    let mut i: usize = 0;
    assert(all.skip(0) =~= all);
    while i < n
        invariant
            n == all.len(),
            i <= n,
            rest@ == all.skip(i as int),
            views(created@) == gathered(all.take(i as int), 0),
            views(deleted@) == gathered(all.take(i as int), 1),
            views(changed@) == gathered(all.take(i as int), 2),
        decreases n - i,
    {
        let ghost pre = all.take(i + 1);
        assert(pre.drop_last() =~= all.take(i as int));
        assert(rest@[0] == all[i as int]);
        let outcome = rest.remove(0);
        assert(rest@ =~= all.skip(i + 1));
        let ghost (vc, vd, vch) = (views(created@), views(deleted@), views(changed@));
        match outcome {
            Some(r) => {
                let ghost o = r;
                let mut c = r.created;
                let mut d = r.deleted;
                let mut ch = r.changed;
                let ghost (pc, pd, pch) = (views(c@), views(d@), views(ch@));
                created.append(&mut c);
                deleted.append(&mut d);
                changed.append(&mut ch);
                assert(views(created@) =~= vc + pc);
                assert(views(deleted@) =~= vd + pd);
                assert(views(changed@) =~= vch + pch);
                assert(pre.last() == Some(o));
            },
            None => {
                assert(vc + Seq::<Seq<char>>::empty() =~= vc);
                assert(vd + Seq::<Seq<char>>::empty() =~= vd);
                assert(vch + Seq::<Seq<char>>::empty() =~= vch);
            },
        }
        i = i + 1;
    }
    assert(all.take(n as int) =~= all);
    let kind = if changed.len() > 0 {
        SnapshotChangeType::Changed
    } else if deleted.len() > 0 {
        SnapshotChangeType::Deleted
    } else if created.len() > 0 {
        SnapshotChangeType::Created
    } else {
        SnapshotChangeType::NoChange
    };
    (kind, SnapshotCompareResult { created, deleted, changed })
}

/// Compares the files `old` of a kept snapshot with the files `new` of a
/// fresh one, with `filesystem_hashing::compare_snapshots` on two snapshots
/// built afresh from them: created are the paths only the fresh one has,
/// deleted those only the kept one has, each listed once as the keys of a map
/// are; changed are the paths of the fresh files whose checksum differs. The
/// result is always there: the comparison gives none only where a lock was
/// poisoned, and the two locks here are new. The order of each list is the
/// order in which the maps are walked, which is left unsaid.
#[verifier::external_body]
fn compare_files(old: &Vec<(String, SnapshotFile)>, new: &Vec<(String, SnapshotFile)>) -> (r: Option<SnapshotCompareResult>)
    ensures
        r is Some,
        compared(old@, new@, r->0),
{
    let snapshot_of = |files: &Vec<(String, SnapshotFile)>| Snapshot {
        file_hashes: Arc::new(Mutex::new(files.iter().map(|(k, f)| (k.clone(), FileMetadata {
            path: f.path.clone(), check_sum: f.check_sum.clone(), ..FileMetadata::default() })).collect())),
        ..Snapshot::default()
    };
    match filesystem_hashing::compare_snapshots(snapshot_of(old), snapshot_of(new), false) {
        Some((_, res)) => Some(SnapshotCompareResult { created: res.created, deleted: res.deleted, changed: res.changed }),
        None => None,
    }
}

/// The name of the hex digest of `data` under BLAKE3.
pub uninterp spec fn blake3_hex(data: Seq<u8>) -> Seq<char>;

/// The BLAKE3 digest of `data` in lowercase hexadecimal, as
/// `blake3::hash(data).to_string()` gives it: 64 characters from `0-9a-f`.
#[verifier::external_body]
fn blake3_hex_of(data: &[u8]) -> (h: String)
    ensures
        h@ == blake3_hex(data@),
        h@.len() == 64,
        forall|i: int| 0 <= i < 64 ==> ('0' <= #[trigger] h@[i] <= '9' || 'a' <= h@[i] <= 'f'),
{
    blake3::hash(data).to_string()
}

/// The directory in which the snapshots are kept.
pub fn snapshots_dir(app_cache_path: &str) -> (p: String)
    ensures
        p@ == app_cache_path@ + "snapshots/"@,
{
    let mut p = String::from_str(app_cache_path);
    p.append("snapshots/");
    p
}

/// The file in which the snapshot of `root_path` is kept: named by the BLAKE3
/// digest of the directory's name.
pub open spec fn state_path_spec(app_cache_path: Seq<char>, root_path: Seq<char>) -> Seq<char> {
    app_cache_path + "/snapshots/"@ + blake3_hex(encode_utf8(root_path))
}

/// The file in which the snapshot of `root_path` is kept.
pub fn snapshot_state_path(app_cache_path: &str, root_path: &str) -> (p: String)
    ensures
        p@ == state_path_spec(app_cache_path@, root_path@),
        p@.len() == app_cache_path@.len() + 11 + 64,
{
    let h = blake3_hex_of(root_path.as_bytes());
    let mut p = String::from_str(app_cache_path);
    p.append("/snapshots/");
    p.append(h.as_str());
    proof { reveal_strlit("/snapshots/"); }
    p
}

/// Law: where no entry holds a `'$'`, the monitored directories are the
/// entries themselves, whatever the variables' values.
pub proof fn law_plain_entries_unchanged(entries: Seq<Seq<char>>, values: Seq<Seq<char>>)
    requires
        values.len() == entries.len(),
        forall|i: int| 0 <= i < entries.len() ==> !(#[trigger] entries[i]).contains('$'),
    ensures
        expanded(entries, values) == entries,
    decreases entries.len(),
{
    if entries.len() > 0 {
        let k = entries.len() - 1;
        let init = entries.drop_last();
        assert(forall|i: int| 0 <= i < init.len() ==> init[i] == entries[i]);
        assert(!entries.last().contains('$')) by {
            assert(entries[k] == entries.last());
        }
        law_plain_entries_unchanged(init, values.take(k));
        assert(init + seq![entries.last()] =~= entries);
    } else {
        assert(entries =~= Seq::empty());
    }
}

/// Law: the directories of which a first snapshot is taken are monitored
/// directories, and none of them is on the blacklist.
pub proof fn law_snapshot_dirs_not_blacklisted(dirs: Seq<Seq<char>>, black_list: Seq<Seq<char>>)
    ensures
        forall|i: int|
            0 <= i < not_blacklisted(dirs, black_list).len() ==> dirs.contains(
                #[trigger] not_blacklisted(dirs, black_list)[i],
            ) && !black_list.contains(not_blacklisted(dirs, black_list)[i]),
    decreases dirs.len(),
{
    if dirs.len() > 0 {
        let init = dirs.drop_last();
        law_snapshot_dirs_not_blacklisted(init, black_list);
        let r = not_blacklisted(dirs, black_list);
        let r0 = not_blacklisted(init, black_list);
        assert forall|i: int| 0 <= i < r.len() implies dirs.contains(#[trigger] r[i])
            && !black_list.contains(r[i]) by {
            if i < r0.len() {
                assert(r[i] == r0[i]);
                let j = choose|j: int| 0 <= j < init.len() && init[j] == r0[i];
                assert(dirs[j] == init[j]);
            } else {
                assert(r[i] == dirs.last());
                assert(dirs[dirs.len() - 1] == dirs.last());
            }
        }
    }
}

/// Law: the directories of a list of entries are those of its first part
/// followed by those of the rest; each entry contributes on its own.
pub proof fn law_expanded_concat(a: Seq<Seq<char>>, va: Seq<Seq<char>>, b: Seq<Seq<char>>, vb: Seq<Seq<char>>)
    requires
        va.len() == a.len(),
        vb.len() == b.len(),
    ensures
        expanded(a + b, va + vb) == expanded(a, va) + expanded(b, vb),
    decreases b.len(),
{
    if b.len() == 0 {
        assert(a + b =~= a);
        assert(va + vb =~= va);
        assert(expanded(a, va) + expanded(b, vb) =~= expanded(a, va));
    } else {
        let m = b.len() - 1;
        let k = (a + b).len() - 1;
        law_expanded_concat(a, va, b.drop_last(), vb.take(m));
        assert((a + b).drop_last() =~= a + b.drop_last());
        assert((va + vb).take(k) =~= va + vb.take(m));
        assert((a + b).last() == b.last());
        assert((va + vb)[k] == vb[m]);
        let tail = if b.last().contains('$') {
            split_on(vb[m], ':')
        } else {
            seq![b.last()]
        };
        assert(expanded(b, vb) == expanded(b.drop_last(), vb.take(m)) + tail);
        assert(expanded(a + b, va + vb) == expanded(a, va) + expanded(b.drop_last(), vb.take(m)) + tail);
        assert(expanded(a, va) + expanded(b.drop_last(), vb.take(m)) + tail =~= expanded(a, va) + (
        expanded(b.drop_last(), vb.take(m)) + tail));
    }
}

/// Law: an entry with a `'$'` contributes its variable's value cut at every
/// `':'`: no directory it gives holds a `':'`, and writing them back with a
/// `':'` between each two gives the value again (so there is one more of them
/// than the value has `':'`).
pub proof fn law_expand_variable_entry(entry: Seq<char>, value: Seq<char>)
    requires
        entry.contains('$'),
    ensures
        join_on(expanded(seq![entry], seq![value]), ':') == value,
        forall|k: int, j: int|
            0 <= k < expanded(seq![entry], seq![value]).len() && 0 <= j < expanded(
                seq![entry],
                seq![value],
            )[k].len() ==> #[trigger] expanded(seq![entry], seq![value])[k][j] != ':',
{
    assert(seq![entry].drop_last() =~= Seq::<Seq<char>>::empty());
    assert(seq![value].take(0) =~= Seq::<Seq<char>>::empty());
    assert(seq![entry].last() == entry);
    assert(seq![value][0] == value);
    assert(expanded(seq![entry].drop_last(), seq![value].take(0)).len() == 0);
    assert(expanded(seq![entry], seq![value]) == expanded(seq![entry].drop_last(), seq![value].take(0))
        + split_on(value, ':'));
    assert(expanded(seq![entry], seq![value]) =~= split_on(value, ':'));
    law_split_then_join(value, ':');
}

/// Law: every monitored directory that the blacklist does not hold is among
/// those of which a first snapshot is taken.
pub proof fn law_snapshot_dirs_complete(dirs: Seq<Seq<char>>, black_list: Seq<Seq<char>>)
    ensures
        forall|i: int|
            0 <= i < dirs.len() && !black_list.contains(#[trigger] dirs[i]) ==> not_blacklisted(
                dirs,
                black_list,
            ).contains(dirs[i]),
    decreases dirs.len(),
{
    if dirs.len() > 0 {
        let n = dirs.len() - 1;
        let init = dirs.drop_last();
        law_snapshot_dirs_complete(init, black_list);
        let r = not_blacklisted(dirs, black_list);
        let r0 = not_blacklisted(init, black_list);
        assert forall|i: int| 0 <= i < dirs.len() && !black_list.contains(#[trigger] dirs[i]) implies r.contains(
            dirs[i],
        ) by {
            if i < n {
                assert(init[i] == dirs[i]);
                let w = choose|w: int| 0 <= w < r0.len() && r0[w] == init[i];
                if black_list.contains(dirs.last()) {
                    assert(r == r0);
                } else {
                    assert(r[w] == r0[w]);
                }
            } else {
                assert(dirs[i] == dirs.last());
                assert(r[r.len() - 1] == dirs.last());
            }
        }
    }
}

/// Law: the directories of which a first snapshot is taken are exactly the
/// monitored directories that the blacklist does not hold, in their order.
pub proof fn law_snapshot_dirs_filter(dirs: Seq<Seq<char>>, black_list: Seq<Seq<char>>)
    ensures
        not_blacklisted(dirs, black_list) == dirs.filter(|d: Seq<char>| !black_list.contains(d)),
    decreases dirs.len(),
{
    reveal(Seq::filter);
    if dirs.len() > 0 {
        law_snapshot_dirs_filter(dirs.drop_last(), black_list);
    }
}

/// The fresh snapshots at hand among the first `n` entries of `fresh`, in order.
pub open spec fn kept_fresh(fresh: Seq<Option<SnapshotState>>, n: int) -> Seq<SnapshotState>
    decreases n,
{
    if n <= 0 {
        Seq::empty()
    } else if n - 1 < fresh.len() && fresh[n - 1] is Some {
        kept_fresh(fresh, n - 1).push(fresh[n - 1]->0)
    } else {
        kept_fresh(fresh, n - 1)
    }
}

/// Law: the snapshots kept after a check are the fresh snapshots that were
/// taken, one for each kept snapshot before it, in order; a directory whose
/// fresh snapshot is missing is dropped.
pub proof fn law_kept_fresh_taken(fresh: Seq<Option<SnapshotState>>, n: int)
    requires
        0 <= n,
    ensures
        kept_fresh(fresh, n) == fresh.take(if n < fresh.len() { n } else { fresh.len() as int }).filter(
            |o: Option<SnapshotState>| o is Some,
        ).map_values(|o: Option<SnapshotState>| o->0),
    decreases n,
{
    reveal(Seq::filter);
    if n > 0 {
        law_kept_fresh_taken(fresh, n - 1);
        if n - 1 < fresh.len() {
            let t = fresh.take(n);
            assert(t.drop_last() =~= fresh.take(n - 1));
            assert(t.last() == fresh[n - 1]);
            let f0 = fresh.take(n - 1).filter(|o: Option<SnapshotState>| o is Some);
            if fresh[n - 1] is Some {
                assert(f0.push(fresh[n - 1]).map_values(|o: Option<SnapshotState>| o->0) =~= f0.map_values(
                    |o: Option<SnapshotState>| o->0,
                ).push(fresh[n - 1]->0));
            }
        }
    }
}

/// Whether `outs` holds, for each kept snapshot, the comparison with its
/// fresh one where there is one, and nothing where there is none.
pub open spec fn valid_outcomes(
    old: Seq<SnapshotState>,
    fresh: Seq<Option<SnapshotState>>,
    outs: Seq<Option<SnapshotCompareResult>>,
) -> bool {
    &&& outs.len() == old.len()
    &&& forall|i: int|
        0 <= i < old.len() ==> ((#[trigger] outs[i]) is Some <==> (i < fresh.len() && fresh[i] is Some))
    &&& forall|i: int|
        0 <= i < old.len() && (#[trigger] outs[i]) is Some ==> compared(
            old[i].files@,
            fresh[i]->0.files@,
            outs[i]->0,
        )
}

/// Whether every kept snapshot has a fresh one with the same files.
pub open spec fn nothing_changed(old: Seq<SnapshotState>, fresh: Seq<Option<SnapshotState>>) -> bool {
    forall|i: int|
        0 <= i < old.len() ==> i < fresh.len() && (#[trigger] fresh[i]) is Some && same_files(
            old[i].files@,
            fresh[i]->0.files@,
        )
}

/// The kind of change that the gathered lists of `outs` show.
pub open spec fn gathered_kind(outs: Seq<Option<SnapshotCompareResult>>) -> SnapshotChangeType {
    change_kind(gathered(outs, 0).len(), gathered(outs, 1).len(), gathered(outs, 2).len())
}

/// Whether `r` reports the comparisons `outs`: nothing where they show no
/// change, else the gathered list of the kind of change that counts most.
pub open spec fn alert_of(r: FsAlert, outs: Seq<Option<SnapshotCompareResult>>) -> bool {
    match r {
        FsAlert::Unchanged => gathered_kind(outs) == SnapshotChangeType::NoChange,
        FsAlert::Created(v) => gathered_kind(outs) == SnapshotChangeType::Created && views(v@)
            == gathered(outs, 0),
        FsAlert::Deleted(v) => gathered_kind(outs) == SnapshotChangeType::Deleted && views(v@)
            == gathered(outs, 1),
        FsAlert::Changed(v) => gathered_kind(outs) == SnapshotChangeType::Changed && views(v@)
            == gathered(outs, 2),
    }
}

/// Where every comparison that was made found nothing of a kind, nothing of
/// that kind is gathered.
pub proof fn lemma_gathered_empty(outcomes: Seq<Option<SnapshotCompareResult>>, which: nat)
    requires
        forall|k: int|
            0 <= k < outcomes.len() && (#[trigger] outcomes[k]) is Some ==> listed(outcomes[k]->0, which).len() == 0,
    ensures
        gathered(outcomes, which).len() == 0,
    decreases outcomes.len(),
{
    if outcomes.len() > 0 {
        let init = outcomes.drop_last();
        assert(forall|k: int| 0 <= k < init.len() ==> init[k] == outcomes[k]);
        assert(outcomes.last() == outcomes[outcomes.len() - 1]);
        lemma_gathered_empty(init, which);
    }
}

/// Law: where every kept snapshot has a fresh one with the same files, the
/// comparisons gather nothing.
pub proof fn law_nothing_changed_gathers_nothing(
    old: Seq<SnapshotState>,
    fresh: Seq<Option<SnapshotState>>,
    outs: Seq<Option<SnapshotCompareResult>>,
)
    requires
        valid_outcomes(old, fresh, outs),
        nothing_changed(old, fresh),
    ensures
        gathered(outs, 0).len() == 0,
        gathered(outs, 1).len() == 0,
        gathered(outs, 2).len() == 0,
        gathered_kind(outs) == SnapshotChangeType::NoChange,
{
    assert forall|k: int| 0 <= k < outs.len() && (#[trigger] outs[k]) is Some implies {
        &&& listed(outs[k]->0, 0).len() == 0
        &&& listed(outs[k]->0, 1).len() == 0
        &&& listed(outs[k]->0, 2).len() == 0
    } by {
        assert(fresh[k] is Some);
        law_same_files_compare_empty(old[k].files@, fresh[k]->0.files@, outs[k]->0);
    }
    lemma_gathered_empty(outs, 0);
    lemma_gathered_empty(outs, 1);
    lemma_gathered_empty(outs, 2);
}

impl FileChanges {
    /// A file monitor with no snapshots yet, over `monitored_directories`, with
    /// the hash function that the settings name.
    pub fn new(
        settings_map: Settings,
        black_list: Vec<String>,
        monitored_directories: Vec<String>,
        app_cache_path: String,
    ) -> (r: Result<FileChanges, ConfigError>)
        ensures
            match r {
                Ok(m) => {
                    &&& !m.triggered
                    &&& m.step == 0
                    &&& m.snapshots@.len() == 0
                    &&& text_of(settings_map.entries@, "fs_mon_hash_type"@) is Some
                    &&& m.hash_type == hash_kind_of(text_of(settings_map.entries@, "fs_mon_hash_type"@)->0)
                    &&& m.settings_map == settings_map
                    &&& m.black_list == black_list
                    &&& m.monitored_directories == monitored_directories
                    &&& m.app_cache_path == app_cache_path
                },
                Err(e) => missing_text_error(settings_map.entries@, "fs_mon_hash_type"@, e),
            },
    {
        let hash_type = get_hash_type(&settings_map)?;
        Ok(FileChanges {
            triggered: false,
            step: 0,
            monitored_directories,
            snapshots: Vec::new(),
            hash_type,
            settings_map,
            black_list,
            app_cache_path,
        })
    }

    /// Takes the snapshots read back from the snapshots directory, where that
    /// directory exists; changes nothing otherwise.
    pub fn restore_snapshots(&mut self, loaded: Option<Vec<SnapshotState>>)
        ensures
            final(self).snapshots@ == match loaded {
                Some(v) => v@,
                None => old(self).snapshots@,
            },
            final(self).triggered == old(self).triggered,
            final(self).step == old(self).step,
            final(self).monitored_directories == old(self).monitored_directories,
            final(self).black_list == old(self).black_list,
            final(self).settings_map == old(self).settings_map,
            final(self).app_cache_path == old(self).app_cache_path,
            final(self).hash_type == old(self).hash_type,
    {
        if let Some(v) = loaded {
            self.snapshots = v;
        }
    }

    /// The directories of which a first snapshot is to be taken: where no
    /// snapshot could be read back, each monitored directory that the
    /// blacklist does not hold, in order; none otherwise. They are to be
    /// hashed with the monitor's hash function.
    pub fn directories_to_snapshot(&self) -> (dirs: Vec<String>)
        ensures
            views(dirs@) == if self.snapshots@.len() == 0 {
                not_blacklisted(views(self.monitored_directories@), views(self.black_list@))
            } else {
                Seq::empty()
            },
    {
        let mut out: Vec<String> = Vec::new();
        if self.snapshots.len() > 0 {
            assert(views(out@) =~= Seq::empty());
            return out;
        }
        let n = self.monitored_directories.len();
        let mut i: usize = 0;
        while i < n
            invariant
                n == self.monitored_directories@.len(),
                i <= n,
                views(out@) == not_blacklisted(
                    views(self.monitored_directories@).take(i as int),
                    views(self.black_list@),
                ),
            decreases n - i,
        {
            let ghost ds = views(self.monitored_directories@).take(i + 1);
            assert(ds.drop_last() =~= views(self.monitored_directories@).take(i as int));
            assert(ds.last() == self.monitored_directories@[i as int]@);
            let ghost old_views = views(out@);
            if !contains_string(&self.black_list, self.monitored_directories[i].as_str()) {
                out.push(self.monitored_directories[i].clone());
                assert(views(out@) =~= old_views.push(ds.last()));
            }
            i = i + 1;
        }
        assert(views(self.monitored_directories@).take(n as int) =~= views(self.monitored_directories@));
        out
    }

    /// Adds a first snapshot, taken with the monitor's hash function.
    pub fn add_snapshot(&mut self, snapshot: SnapshotState)
        requires
            snapshot.hash_type == old(self).hash_type,
        ensures
            final(self).snapshots@ == old(self).snapshots@.push(snapshot),
            final(self).triggered == old(self).triggered,
            final(self).step == old(self).step,
            final(self).monitored_directories == old(self).monitored_directories,
            final(self).black_list == old(self).black_list,
            final(self).settings_map == old(self).settings_map,
            final(self).app_cache_path == old(self).app_cache_path,
            final(self).hash_type == old(self).hash_type,
    {
        self.snapshots.push(snapshot);
    }

    /// The number of files in each snapshot.
    pub fn file_counts(&self) -> (counts: Vec<usize>)
        ensures
            counts@.len() == self.snapshots@.len(),
            forall|i: int| 0 <= i < counts@.len() ==> #[trigger] counts@[i] == self.snapshots@[i].files@.len(),
    {
        let mut counts: Vec<usize> = Vec::new();
        let n = self.snapshots.len();
        let mut i: usize = 0;
        while i < n
            invariant
                n == self.snapshots@.len(),
                i <= n,
                counts@.len() == i,
                forall|k: int| 0 <= k < i ==> #[trigger] counts@[k] == self.snapshots@[k].files@.len(),
            decreases n - i,
        {
            counts.push(self.snapshots[i].files.len());
            i = i + 1;
        }
        counts
    }

    /// The files in which the snapshots are kept, one for each snapshot.
    pub fn state_paths(&self) -> (paths: Vec<String>)
        ensures
            paths@.len() == self.snapshots@.len(),
            forall|i: int|
                0 <= i < paths@.len() ==> #[trigger] paths@[i]@ == state_path_spec(
                    self.app_cache_path@,
                    self.snapshots@[i].root_path@,
                ),
    {
        let mut paths: Vec<String> = Vec::new();
        let n = self.snapshots.len();
        let mut i: usize = 0;
        while i < n
            invariant
                n == self.snapshots@.len(),
                i <= n,
                paths@.len() == i,
                forall|k: int|
                    0 <= k < i ==> #[trigger] paths@[k]@ == state_path_spec(
                        self.app_cache_path@,
                        self.snapshots@[k].root_path@,
                    ),
            decreases n - i,
        {
            let p = snapshot_state_path(self.app_cache_path.as_str(), self.snapshots[i].root_path.as_str());
            paths.push(p);
            i = i + 1;
        }
        paths
    }

    /// Compares each kept snapshot with its fresh one (`fresh[i]` for
    /// `snapshots[i]`; `None` where the directory could not be hashed again).
    /// The fresh snapshots at hand become the kept ones, in order; the lists
    /// of the comparisons are gathered in that order, and the kind of change
    /// is derived from them.
    pub fn compare_all_snapshots(&mut self, fresh: Vec<Option<SnapshotState>>) -> (r: (SnapshotChangeType, SnapshotCompareResult))
        ensures
            r.0 == result_kind(r.1),
            final(self).snapshots@ == kept_fresh(fresh@, old(self).snapshots@.len() as int),
            exists|outs: Seq<Option<SnapshotCompareResult>>|
                #[trigger] valid_outcomes(old(self).snapshots@, fresh@, outs) && views(r.1.created@)
                    == gathered(outs, 0) && views(r.1.deleted@) == gathered(outs, 1) && views(
                    r.1.changed@,
                ) == gathered(outs, 2),
            nothing_changed(old(self).snapshots@, fresh@) ==> r.0 == SnapshotChangeType::NoChange,
            final(self).triggered == old(self).triggered,
            final(self).step == old(self).step,
            final(self).monitored_directories == old(self).monitored_directories,
            final(self).black_list == old(self).black_list,
            final(self).settings_map == old(self).settings_map,
            final(self).app_cache_path == old(self).app_cache_path,
            final(self).hash_type == old(self).hash_type,
    {
        let ghost olds = self.snapshots@;
        let ghost all = fresh@;
        let mut rest = fresh;
        let mut outcomes: Vec<Option<SnapshotCompareResult>> = Vec::new();
        let mut kept: Vec<SnapshotState> = Vec::new();
        let n = self.snapshots.len();
        let total = rest.len();
        let mut i: usize = 0;
        assert(all.skip(0) =~= all);
        while i < n
            invariant
                n == olds.len(),
                self.snapshots@ == olds,
                i <= n,
                total == all.len(),
                rest@ == all.skip(if i < total { i as int } else { total as int }),
                outcomes@.len() == i,
                forall|k: int|
                    0 <= k < i ==> ((#[trigger] outcomes@[k]) is Some <==> (k < all.len() && all[k] is Some)),
                forall|k: int|
                    0 <= k < i && (#[trigger] outcomes@[k]) is Some ==> compared(
                        olds[k].files@,
                        all[k]->0.files@,
                        outcomes@[k]->0,
                    ),
                kept@ == kept_fresh(all, i as int),
            decreases n - i,
        {
            let ghost before = outcomes@;
            if rest.len() > 0 {
                assert(i < total);
                assert(rest@[0] == all[i as int]);
                let next = rest.remove(0);
                assert(rest@ =~= all.skip(i + 1));
                match next {
                    Some(fresh_one) => {
                        let res = compare_files(&self.snapshots[i].files, &fresh_one.files);
                        outcomes.push(res);
                        kept.push(fresh_one);
                    },
                    None => outcomes.push(None),
                }
            } else {
                assert(i >= total);
                outcomes.push(None);
            }
            assert(forall|k: int| 0 <= k < i ==> outcomes@[k] == before[k]);
            i = i + 1;
            assert(rest@ =~= all.skip(if i < total { i as int } else { total as int }));
        }
        self.snapshots = kept;
        let ghost outs = outcomes@;
        assert(valid_outcomes(olds, all, outs));
        let r = aggregate_comparisons(outcomes);
        proof {
            if nothing_changed(olds, all) {
                law_nothing_changed_gathers_nothing(olds, all, outs);
            }
        }
        r
    }
}

impl EventMonitor for FileChanges {
    type Observation = Vec<Option<SnapshotState>>;

    type Report = FsAlert;

    /// Compares the kept snapshots with the fresh ones and reports the files
    /// of the kind of change that counts most.
    fn check(&mut self, fresh: Vec<Option<SnapshotState>>) -> (r: FsAlert)
        ensures
            !final(self).triggered,
            final(self).snapshots@ == kept_fresh(fresh@, old(self).snapshots@.len() as int),
            exists|outs: Seq<Option<SnapshotCompareResult>>|
                #[trigger] valid_outcomes(old(self).snapshots@, fresh@, outs) && alert_of(r, outs),
            nothing_changed(old(self).snapshots@, fresh@) ==> r is Unchanged,
            final(self).step == old(self).step,
            final(self).monitored_directories == old(self).monitored_directories,
            final(self).black_list == old(self).black_list,
            final(self).settings_map == old(self).settings_map,
            final(self).app_cache_path == old(self).app_cache_path,
            final(self).hash_type == old(self).hash_type,
    {
        let ghost olds = self.snapshots@;
        let ghost all = fresh@;
        let (kind, result) = self.compare_all_snapshots(fresh);
        let ghost outs = choose|outs: Seq<Option<SnapshotCompareResult>>|
            #[trigger] valid_outcomes(olds, all, outs) && views(result.created@) == gathered(outs, 0)
                && views(result.deleted@) == gathered(outs, 1) && views(result.changed@) == gathered(
                outs,
                2,
            );
        self.triggered = false;
        let r = fs_alert(kind, result);
        assert(alert_of(r, outs));
        r
    }
}

/// The report for a comparison: the list that goes with its kind of change.
pub fn fs_alert(kind: SnapshotChangeType, result: SnapshotCompareResult) -> (r: FsAlert)
    requires
        kind == result_kind(result),
    ensures
        match r {
            FsAlert::Unchanged => kind == SnapshotChangeType::NoChange,
            FsAlert::Created(v) => kind == SnapshotChangeType::Created && v == result.created,
            FsAlert::Deleted(v) => kind == SnapshotChangeType::Deleted && v == result.deleted,
            FsAlert::Changed(v) => kind == SnapshotChangeType::Changed && v == result.changed,
        },
{
    match kind {
        SnapshotChangeType::NoChange => FsAlert::Unchanged,
        SnapshotChangeType::Created => FsAlert::Created(result.created),
        SnapshotChangeType::Deleted => FsAlert::Deleted(result.deleted),
        SnapshotChangeType::Changed => FsAlert::Changed(result.changed),
    }
}

} // verus!
