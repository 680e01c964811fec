//! When backups are due and which ones go.
use vstd::prelude::*;

use crate::backup::FileData;
use crate::dates::Moment;
use crate::ledger::LedgerData;

verus! {

/// The seconds from one backup to the next, by the setting: none unless it is
/// daily, weekly or monthly.
pub open spec fn wanted_every(d: LedgerData) -> Option<int> {
    if !d.settings.contains_key("backup_frequency"@) {
        None
    } else if d.settings["backup_frequency"@] == "daily"@ {
        Some(24int * 60 * 60)
    } else if d.settings["backup_frequency"@] == "weekly"@ {
        Some(7int * 24 * 60 * 60)
    } else if d.settings["backup_frequency"@] == "monthly"@ {
        Some(30int * 24 * 60 * 60)
    } else {
        None
    }
}

/// Whether a backup is on record that can be read.
pub open spec fn has_readable_record(d: LedgerData) -> bool {
    d.settings.contains_key("last_backup_at"@) && crate::dates::parsed_moment(
        d.settings["last_backup_at"@],
    ) is Some
}

/// A backup is due exactly when backups are wanted and there is no readable record
/// of one, or the time since then is at least the interval, to the nanosecond.
pub proof fn law_when_a_backup_is_due(d: LedgerData, now: Moment)
    requires
        now.nanos < 1_000_000_000,
    ensures
        wanted_every(d) is None ==> !d.backup_due(now),
        wanted_every(d) is Some && !has_readable_record(d) ==> d.backup_due(now),
        has_readable_record(d) && wanted_every(d) is Some ==> {
            let (secs, nanos) = crate::dates::parsed_moment(d.settings["last_backup_at"@])->0;
            nanos < 1_000_000_000 ==> (d.backup_due(now) <==> now.secs * 1_000_000_000 + now.nanos
                >= (secs + wanted_every(d)->0) * 1_000_000_000 + nanos)
        },
{
    frequencies_differ();
    if has_readable_record(d) && wanted_every(d) is Some {
        let (secs, nanos) = crate::dates::parsed_moment(d.settings["last_backup_at"@])->0;
        let then = Moment { secs, nanos };
        assert(d.last_backup() == Some(then));
        if nanos < 1_000_000_000 {
            let gap = crate::dates::elapsed_nanos(now, then);
            assert(gap == (now.secs - secs) * 1_000_000_000 + (now.nanos - nanos));
            assert(d.backup_due(now) <==> crate::dates::whole_seconds(gap) >= wanted_every(d)->0);
        }
    }
}

/// The four frequencies are different texts.
proof fn frequencies_differ()
    ensures
        "off"@ != "daily"@,
        "off"@ != "weekly"@,
        "off"@ != "monthly"@,
        "daily"@ != "weekly"@,
        "daily"@ != "monthly"@,
        "weekly"@ != "monthly"@,
{
    reveal_strlit("off");
    reveal_strlit("daily");
    reveal_strlit("weekly");
    reveal_strlit("monthly");
    assert("off"@.len() == 3 && "daily"@.len() == 5 && "weekly"@.len() == 6 && "monthly"@.len()
        == 7);
}

/// The frequency in use is the one that is stored, or `off` if none is.
pub proof fn law_frequency_in_use(d: LedgerData)
    ensures
        d.settings.contains_key("backup_frequency"@) ==> d.backup_frequency()
            == d.settings["backup_frequency"@],
        !d.settings.contains_key("backup_frequency"@) ==> d.backup_frequency() == "off"@,
{
}

/// Every frequency that can be chosen is `off` or one at which backups become
/// due, and nothing else can be chosen.
pub proof fn law_frequencies(d: LedgerData)
    requires
        d.settings.contains_key("backup_frequency"@),
    ensures
        crate::backup::is_frequency(d.settings["backup_frequency"@]) <==> wanted_every(d) is Some
            || d.settings["backup_frequency"@] == "off"@,
{
    frequencies_differ();
}

/// Whether the name begins with `my_finances-` and ends with `.db.gz`.
pub open spec fn is_backup_file(name: Seq<char>) -> bool {
    let n = name.len() as int;
    &&& crate::outcomes::names::begins_with(name, "my_finances-"@)
    &&& n >= 6
    &&& name[n - 6] == '.'
    &&& name[n - 5] == 'd'
    &&& name[n - 4] == 'b'
    &&& name[n - 3] == '.'
    &&& name[n - 2] == 'g'
    &&& name[n - 1] == 'z'
}

/// Files are told to be backups by the beginning and the end of their names.
pub proof fn law_backup_files(name: Seq<char>, stamp: Seq<char>)
    ensures
        crate::backup::is_backup(name) <==> is_backup_file(name),
        crate::backup::backup_name(stamp) == "my_finances-"@ + stamp + ".db.gz"@,
        crate::backup::snapshot_name(stamp) == "my_finances-"@ + stamp + ".tmp"@,
{
    reveal_strlit("my_finances-");
    reveal_strlit(".db.gz");
    let start = "my_finances-"@;
    let end = ".db.gz"@;
    let n = name.len() as int;
    if crate::outcomes::names::begins_with(name, start) {
        assert(start =~= name.subrange(0, start.len() as int));
    }
    if start.is_prefix_of(name) {
        assert forall|i: int| 0 <= i < start.len() implies #[trigger] name[i] == start[i] by {
            assert(name.subrange(0, start.len() as int)[i] == name[i]);
        }
    }
    if n >= 6 {
        let tail = name.subrange(n - 6, n);
        if is_backup_file(name) {
            assert(tail =~= end);
        }
        if end.is_suffix_of(name) {
            assert(tail[0] == '.' && tail[1] == 'd' && tail[2] == 'b' && tail[3] == '.' && tail[4]
                == 'g' && tail[5] == 'z');
        }
    }
}

/// Whether the file at `i` goes before the one at `j`: it is newer, or equally old
/// and listed earlier.
pub open spec fn outranks(files: Seq<FileData>, i: int, j: int) -> bool {
    files[i].modified > files[j].modified || files[i].modified == files[j].modified && i < j
}

/// Whether `r` ranks all files.
pub open spec fn ranks_all(files: Seq<FileData>, r: Seq<int>) -> bool {
    &&& r.len() == files.len()
    &&& forall|k: int| 0 <= k < r.len() ==> 0 <= #[trigger] r[k] < files.len()
    &&& forall|k: int, l: int|
        0 <= k < l < r.len() ==> outranks(files, #[trigger] r[k], #[trigger] r[l])
    &&& forall|i: int| 0 <= i < files.len() ==> #[trigger] r.contains(i)
}

/// A new file goes in behind those that are not older.
proof fn goes_in(files: Seq<FileData>, file: FileData) -> (at: int)
    requires
        forall|i: int, j: int|
            0 <= i < j < files.len() ==> (#[trigger] files[i]).modified >= (
            #[trigger] files[j]).modified,
    ensures
        0 <= at <= files.len(),
        crate::backup::with_file(files, file) == files.insert(at, file),
        forall|k: int| 0 <= k < at ==> (#[trigger] files[k]).modified >= file.modified,
        forall|k: int| at <= k < files.len() ==> (#[trigger] files[k]).modified < file.modified,
    decreases files.len(),
{
    let n = files.len() as int;
    if n == 0 || files.last().modified >= file.modified {
        assert(files.push(file) =~= files.insert(n, file));
        assert forall|k: int| 0 <= k < n implies (#[trigger] files[k]).modified >= file.modified by {
            assert(files[n - 1].modified >= file.modified);
        }
        n
    } else {
        let rest = files.drop_last();
        let at = goes_in(rest, file);
        assert(rest.insert(at, file).push(files.last()) =~= files.insert(at, file));
        assert forall|k: int| 0 <= k < at implies (#[trigger] files[k]).modified
            >= file.modified by {
            assert(rest[k] == files[k]);
        }
        assert forall|k: int| at <= k < n implies (#[trigger] files[k]).modified < file.modified by {
            if k < n - 1 {
                assert(rest[k] == files[k]);
            }
        }
        at
    }
}

/// The files from the newest to the oldest are those that a ranking lists.
proof fn sorted_by_rank(files: Seq<FileData>) -> (r: Seq<int>)
    ensures
        ranks_all(files, r),
        crate::backup::newest_first(files).len() == files.len(),
        forall|k: int|
            0 <= k < r.len() ==> #[trigger] crate::backup::newest_first(files)[k] == files[r[k]],
    decreases files.len(),
{
    if files.len() == 0 {
        Seq::empty()
    } else {
        let n = files.len() as int;
        let rest = files.drop_last();
        let file = files.last();
        let q = sorted_by_rank(rest);
        let sorted = crate::backup::newest_first(rest);
        assert forall|i: int, j: int| 0 <= i < j < sorted.len() implies (
        #[trigger] sorted[i]).modified >= (#[trigger] sorted[j]).modified by {
            assert(outranks(rest, q[i], q[j]));
        }
        let at = goes_in(sorted, file);
        let r = q.insert(at, n - 1);
        let all = crate::backup::newest_first(files);
        assert(all == sorted.insert(at, file));
        assert forall|k: int| 0 <= k < r.len() implies 0 <= #[trigger] r[k] < n && all[k]
            == files[r[k]] && (k < at ==> r[k] == q[k]) && (k > at ==> r[k] == q[k - 1]) by {
            if k < at {
                assert(0 <= q[k] < n - 1);
                assert(sorted[k] == rest[q[k]]);
            } else if k > at {
                assert(0 <= q[k - 1] < n - 1);
                assert(sorted[k - 1] == rest[q[k - 1]]);
            }
        }
        assert forall|k: int, l: int| 0 <= k < l < r.len() implies outranks(
            files,
            #[trigger] r[k],
            #[trigger] r[l],
        ) by {
            if l < at {
                assert(outranks(rest, q[k], q[l]));
            } else if k > at {
                assert(outranks(rest, q[k - 1], q[l - 1]));
            } else if l == at {
                assert(sorted[k] == rest[q[k]]);
                assert(sorted[k].modified >= file.modified);
            } else if k == at {
                assert(sorted[l - 1] == rest[q[l - 1]]);
                assert(sorted[l - 1].modified < file.modified);
            } else {
                assert(outranks(rest, q[k], q[l - 1]));
            }
        }
        assert forall|i: int| 0 <= i < n implies #[trigger] r.contains(i) by {
            if i == n - 1 {
                assert(r[at] == i);
            } else {
                assert(q.contains(i));
                let k = choose|k: int| 0 <= k < q.len() && q[k] == i;
                if k < at {
                    assert(r[k] == i);
                } else {
                    assert(r[k + 1] == i);
                }
            }
        }
        r
    }
}

/// Whether the positions are those of the backups among the files.
pub open spec fn are_backups_at(files: Seq<FileData>, p: Seq<int>) -> bool {
    crate::outcomes::positions::lists_positions(
        p,
        files.len() as int,
        |i: int| is_backup_file(files[i].name),
    )
}

/// Whether the files at `q` are deleted: they are backups, in order of their rank,
/// and every backup that stays outranks each of them.
pub open spec fn are_deleted_at(files: Seq<FileData>, q: Seq<int>) -> bool {
    &&& forall|k: int|
        0 <= k < q.len() ==> 0 <= #[trigger] q[k] < files.len() && is_backup_file(
            files[q[k]].name,
        )
    &&& forall|k: int, l: int|
        0 <= k < l < q.len() ==> outranks(files, #[trigger] q[k], #[trigger] q[l])
    &&& forall|i: int, k: int|
        0 <= i < files.len() && is_backup_file((#[trigger] files[i]).name) && !q.contains(i) && 0
            <= k < q.len() ==> outranks(files, i, #[trigger] q[k])
}

/// How many backups a frequency keeps, if there is a limit.
pub open spec fn limit_of(frequency: Seq<char>) -> Option<int> {
    if frequency == "daily"@ {
        Some(30)
    } else if frequency == "weekly"@ {
        Some(12)
    } else if frequency == "monthly"@ {
        Some(24)
    } else {
        None
    }
}

/// Pruning deletes the lowest ranking backups, as many as there are beyond the
/// limit, and nothing without a limit.
pub proof fn law_pruning_outcome(files: Seq<FileData>, frequency: Seq<char>, p: Seq<int>)
    requires
        are_backups_at(files, p),
    ensures
        ({
            let deleted = crate::backup::pruned(files, frequency);
            let limit = limit_of(frequency);
            &&& deleted.len() == if limit is Some && p.len() > limit->0 {
                p.len() - limit->0
            } else {
                0
            }
            &&& exists|q: Seq<int>|
                {
                    &&& #[trigger] are_deleted_at(files, q)
                    &&& q.len() == deleted.len()
                    &&& forall|k: int|
                        0 <= k < q.len() ==> #[trigger] deleted[k] == files[q[k]]
                }
        }),
{
    frequencies_differ();
    let n = files.len() as int;
    let mine = |f: FileData| crate::backup::is_backup(f.name);
    let named = |i: int| is_backup_file(files[i].name);
    let s = crate::outcomes::positions::filter_by_position(files, mine);
    assert forall|i: int| 0 <= i < n implies (mine(files[i]) <==> #[trigger] named(i)) by {
        law_backup_files(files[i].name, Seq::empty());
    }
    crate::outcomes::positions::same_positions(s, n, |i: int| mine(files[i]), named);
    crate::outcomes::positions::positions_are_unique(s, p, n, named);
    let all = crate::backup::backups(files);
    assert(all == crate::outcomes::positions::elements_at(files, p));
    let r = sorted_by_rank(all);
    let deleted = crate::backup::pruned(files, frequency);
    let keep = crate::backup::keep_count(frequency) as int;
    if keep == 0 || keep >= all.len() {
        let q = Seq::<int>::empty();
        assert(are_deleted_at(files, q));
    } else {
        let q = Seq::new((all.len() - keep) as nat, |k: int| p[r[keep + k]]);
        assert forall|k: int| 0 <= k < q.len() implies 0 <= #[trigger] q[k] < n && named(q[k])
            && deleted[k] == files[q[k]] by {
            let m = r[keep + k];
            assert(0 <= m < p.len());
            assert(named(p[m]));
            assert(crate::backup::newest_first(all)[keep + k] == all[m]);
        }
        assert forall|k: int, l: int| 0 <= k < l < q.len() implies outranks(
            files,
            #[trigger] q[k],
            #[trigger] q[l],
        ) by {
            ranked_in_files(files, p, all, r, keep + k, keep + l);
        }
        assert forall|i: int, k: int|
            0 <= i < n && is_backup_file((#[trigger] files[i]).name) && !q.contains(i) && 0 <= k
                < q.len() implies outranks(files, i, #[trigger] q[k]) by {
            assert(named(i));
            assert(p.contains(i));
            let m = choose|m: int| 0 <= m < p.len() && p[m] == i;
            assert(r.contains(m));
            let at = choose|at: int| 0 <= at < r.len() && r[at] == m;
            if at >= keep {
                assert(q[at - keep] == i);
            }
            ranked_in_files(files, p, all, r, at, keep + k);
        }
        assert(are_deleted_at(files, q));
    }
}

/// A ranking of the backups ranks them as files.
proof fn ranked_in_files(
    files: Seq<FileData>,
    p: Seq<int>,
    all: Seq<FileData>,
    r: Seq<int>,
    k: int,
    l: int,
)
    requires
        are_backups_at(files, p),
        all == crate::outcomes::positions::elements_at(files, p),
        ranks_all(all, r),
        0 <= k < l < r.len(),
    ensures
        outranks(files, p[r[k]], p[r[l]]),
{
    let i = r[k];
    let j = r[l];
    assert(outranks(all, i, j));
    assert(all[i] == files[p[i]] && all[j] == files[p[j]]);
    if i < j {
        assert(p[i] < p[j]);
    }
}

} // verus!
