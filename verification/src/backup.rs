//! Backups: when they are due, how they are named, and which ones are kept.
use flate2::write::GzEncoder;
use flate2::Compression;
use std::io::Write;
use vstd::prelude::*;

use crate::dates::{backup_stamp, format_moment, parse_moment, seconds_since, Moment};
use crate::ledger::{Ledger, LedgerData};
use crate::paths::resolve_backups_dir;
use crate::text::{ends_with, joined, starts_with, text_eq};

verus! {

pub const BACKUP_PREFIX: &'static str = "my_finances-";

pub const BACKUP_SUFFIX: &'static str = ".db.gz";

pub const SNAPSHOT_SUFFIX: &'static str = ".tmp";

pub const FREQUENCY_KEY: &'static str = "backup_frequency";

pub const LAST_BACKUP_KEY: &'static str = "last_backup_at";

pub const BACKUP_DIR_KEY: &'static str = "backup_dir";

/// How many backups a frequency keeps. Zero means that none are deleted.
pub open spec fn keep_count(frequency: Seq<char>) -> nat {
    if frequency == "daily"@ {
        30
    } else if frequency == "weekly"@ {
        12
    } else if frequency == "monthly"@ {
        24
    } else {
        0
    }
}

/// How many backups a frequency keeps.
pub fn backup_keep_count(frequency: &str) -> (r: usize)
    ensures
        r == keep_count(frequency@),
{
    if text_eq(frequency, "daily") {
        30
    } else if text_eq(frequency, "weekly") {
        12
    } else if text_eq(frequency, "monthly") {
        24
    } else {
        0
    }
}

/// The seconds between two backups, if there are to be any.
pub open spec fn interval_secs(frequency: Seq<char>) -> Option<i64> {
    if frequency == "daily"@ {
        Some(86_400)
    } else if frequency == "weekly"@ {
        Some(604_800)
    } else if frequency == "monthly"@ {
        Some(2_592_000)
    } else {
        None
    }
}

/// The seconds between two backups, if there are to be any.
pub fn backup_interval_secs(frequency: &str) -> (r: Option<i64>)
    ensures
        r == interval_secs(frequency@),
{
    if text_eq(frequency, "daily") {
        Some(86_400)
    } else if text_eq(frequency, "weekly") {
        Some(604_800)
    } else if text_eq(frequency, "monthly") {
        Some(2_592_000)
    } else {
        None
    }
}

/// Whether the text is a frequency that can be chosen.
pub open spec fn is_frequency(text: Seq<char>) -> bool {
    text == "off"@ || text == "daily"@ || text == "weekly"@ || text == "monthly"@
}

/// What the user sees of the backup settings.
#[derive(Debug, Clone, PartialEq, Eq)]
pub struct BackupSettings {
    pub frequency: String,
    /// When the last backup was made, if ever.
    pub last_backup_at: Option<String>,
    /// The directory in use.
    pub backup_dir: String,
    /// Whether that is the default one.
    pub is_default_dir: bool,
}

impl LedgerData {
    /// The chosen frequency, off unless one was chosen.
    pub open spec fn backup_frequency(self) -> Seq<char> {
        match self.setting_value(FREQUENCY_KEY@) {
            Some(text) => text,
            None => "off"@,
        }
    }

    /// The moment of the last backup, if there is one on record that can be
    /// read.
    pub open spec fn last_backup(self) -> Option<Moment> {
        match self.setting_value(LAST_BACKUP_KEY@) {
            Some(text) => match crate::dates::parsed_moment(text) {
                Some((secs, nanos)) => Some(Moment { secs, nanos }),
                None => None,
            },
            None => None,
        }
    }

    /// Whether a backup is due.
    pub open spec fn backup_due(self, now: Moment) -> bool {
        is_due(interval_secs(self.backup_frequency()), self.last_backup(), now)
    }
}

/// Whether a backup is due: one is wanted, and there is none on record, or it
/// was made an interval ago or earlier.
pub open spec fn is_due(interval: Option<i64>, last: Option<Moment>, now: Moment) -> bool {
    interval is Some && (last is Some ==> crate::dates::whole_seconds(
        crate::dates::elapsed_nanos(now, last->0),
    ) >= interval->0)
}

/// Whether a backup is due, given the interval between backups and the moment of
/// the last one.
pub fn due_since(interval: Option<i64>, last: Option<Moment>, now: &Moment) -> (r: bool)
    requires
        now.valid(),
        last is Some ==> last->0.valid(),
    ensures
        r == is_due(interval, last, *now),
{
    match interval {
        None => false,
        Some(secs) => match last {
            None => true,
            Some(then) => seconds_since(now, &then) >= secs,
        },
    }
}

/// Refuses a text that is no frequency.
pub fn check_frequency(frequency: &str) -> (r: Result<(), String>)
    ensures
        match r {
            Ok(_) => is_frequency(frequency@),
            Err(message) => !is_frequency(frequency@) && message@
                == "Invalid backup frequency: "@ + frequency@,
        },
{
    if text_eq(frequency, "off") || text_eq(frequency, "daily") || text_eq(frequency, "weekly")
        || text_eq(frequency, "monthly") {
        Ok(())
    } else {
        Err(joined("Invalid backup frequency: ", frequency))
    }
}

impl Ledger {
    /// The chosen frequency.
    pub fn backup_frequency(&self) -> (r: String)
        requires
            self.well_formed(),
        ensures
            r@ == self@.backup_frequency(),
    {
        match self.setting(FREQUENCY_KEY) {
            Some(text) => text,
            None => "off".to_owned(),
        }
    }

    /// Chooses how often backups are made.
    pub fn set_backup_frequency(&mut self, frequency: &str) -> (r: Result<(), String>)
        requires
            old(self).well_formed(),
        ensures
            final(self).well_formed(),
            match r {
                Ok(_) => is_frequency(frequency@) && final(self)@ == old(self)@.with_setting(
                    FREQUENCY_KEY@,
                    frequency@,
                ),
                Err(message) => !is_frequency(frequency@) && final(self)@ == old(self)@
                    && message@ == "Invalid backup frequency: "@ + frequency@,
            },
    {
        match check_frequency(frequency) {
            Err(message) => Err(message),
            Ok(_) => {
                self.set_setting(FREQUENCY_KEY, frequency);
                Ok(())
            },
        }
    }

    /// The moment of the last backup on record.
    fn last_backup(&self) -> (r: Option<Moment>)
        requires
            self.well_formed(),
        ensures
            r == self@.last_backup(),
            r is Some ==> r->0.valid(),
    {
        match self.setting(LAST_BACKUP_KEY) {
            Some(text) => parse_moment(text.as_str()),
            None => None,
        }
    }

    /// Whether a backup is due.
    pub fn backup_due(&self, now: &Moment) -> (r: bool)
        requires
            self.well_formed(),
            now.valid(),
        ensures
            r == self@.backup_due(*now),
    {
        let frequency: String = self.backup_frequency();
        let interval: Option<i64> = backup_interval_secs(frequency.as_str());
        due_since(interval, self.last_backup(), now)
    }

    /// Puts a backup on record.
    pub fn record_backup(&mut self, now: &Moment)
        requires
            old(self).well_formed(),
            now.valid(),
        ensures
            final(self).well_formed(),
            final(self)@ == old(self)@.with_setting(
                LAST_BACKUP_KEY@,
                crate::dates::formatted_moment(now.secs, now.nanos),
            ),
            now.plain() ==> final(self)@.last_backup() == Some(*now),
    {
        let text: String = format_moment(now);
        self.set_setting(LAST_BACKUP_KEY, text.as_str());
    }

    /// The backup settings, given the data directory.
    pub fn get_backup_settings(&self, data_dir: &Option<String>) -> (r: BackupSettings)
        requires
            self.well_formed(),
        ensures
            r.frequency@ == self@.backup_frequency(),
            crate::model::text_data(r.last_backup_at) == self@.setting_value(LAST_BACKUP_KEY@),
            match self@.setting_value(BACKUP_DIR_KEY@) {
                Some(dir) if crate::paths::is_absolute_spec(dir) => r.backup_dir@ == dir
                    && !r.is_default_dir,
                _ => r.backup_dir@ == crate::paths::default_backups_dir(*data_dir)
                    && r.is_default_dir,
            },
    {
        let custom: Option<String> = self.setting(BACKUP_DIR_KEY);
        let is_default_dir: bool = match &custom {
            Some(dir) => !crate::paths::is_absolute(dir.as_str()),
            None => true,
        };
        BackupSettings {
            frequency: self.backup_frequency(),
            last_backup_at: self.setting(LAST_BACKUP_KEY),
            backup_dir: resolve_backups_dir(&custom, data_dir),
            is_default_dir,
        }
    }

    /// The directory for backups, given the data directory.
    pub fn backups_dir(&self, data_dir: &Option<String>) -> (r: String)
        requires
            self.well_formed(),
        ensures
            r@ == match self@.setting_value(BACKUP_DIR_KEY@) {
                Some(dir) if crate::paths::is_absolute_spec(dir) => dir,
                _ => crate::paths::default_backups_dir(*data_dir),
            },
    {
        let custom: Option<String> = self.setting(BACKUP_DIR_KEY);
        resolve_backups_dir(&custom, data_dir)
    }
}

/// The files of one backup.
#[derive(Debug, Clone, PartialEq, Eq)]
pub struct BackupNames {
    /// The uncompressed snapshot, which does not stay.
    pub snapshot: String,
    /// The backup.
    pub backup: String,
}

/// The name of the snapshot with the given stamp.
pub open spec fn snapshot_name(stamp: Seq<char>) -> Seq<char> {
    BACKUP_PREFIX@ + stamp + SNAPSHOT_SUFFIX@
}

/// The name of the backup with the given stamp.
pub open spec fn backup_name(stamp: Seq<char>) -> Seq<char> {
    BACKUP_PREFIX@ + stamp + BACKUP_SUFFIX@
}

/// The file names of a backup with the given stamp.
pub fn names_at(stamp: &str) -> (r: BackupNames)
    ensures
        r.snapshot@ == snapshot_name(stamp@),
        r.backup@ == backup_name(stamp@),
{
    let base: String = joined(BACKUP_PREFIX, stamp);
    BackupNames {
        snapshot: joined(base.as_str(), SNAPSHOT_SUFFIX),
        backup: joined(base.as_str(), BACKUP_SUFFIX),
    }
}

/// The stamp of a backup that is made at a moment.
pub open spec fn stamp_at(m: Moment) -> Seq<char> {
    crate::dates::formatted(m.secs, m.nanos, crate::dates::BACKUP_FORMAT@)
}

/// The file names of a backup that is made now.
pub fn backup_names(now: &Moment) -> (r: BackupNames)
    requires
        now.valid(),
    ensures
        r.snapshot@ == snapshot_name(stamp_at(*now)),
        r.backup@ == backup_name(stamp_at(*now)),
{
    names_at(backup_stamp(now).as_str())
}

/// One character between the quotes of an SQL text: a single quote is doubled.
pub open spec fn quoted_char(c: char) -> Seq<char> {
    if c == '\'' {
        seq!['\'', '\'']
    } else {
        seq![c]
    }
}

/// What stands between the quotes of an SQL text: each single quote twice, every
/// other character once.
pub open spec fn quoted(text: Seq<char>) -> Seq<char>
    decreases text.len(),
{
    if text.len() == 0 {
        Seq::empty()
    } else {
        quoted(text.drop_last()) + quoted_char(text.last())
    }
}

/// The text that SQL reads between single quotes, if no single quote stands alone
/// there.
pub open spec fn read_quoted(literal: Seq<char>) -> Option<Seq<char>>
    decreases literal.len(),
{
    if literal.len() == 0 {
        Some(Seq::empty())
    } else if literal[0] != '\'' {
        match read_quoted(literal.skip(1)) {
            Some(rest) => Some(seq![literal[0]] + rest),
            None => None,
        }
    } else if literal.len() >= 2 && literal[1] == '\'' {
        match read_quoted(literal.skip(2)) {
            Some(rest) => Some(seq!['\''] + rest),
            None => None,
        }
    } else {
        None
    }
}

/// The statement that writes a compacted copy of the database to the file
/// `target`.
pub fn snapshot_statement(target: &str) -> (r: String)
    ensures
        r@ == "VACUUM INTO '"@ + quoted(target@) + "';"@,
{
    proof {
        reveal_strlit("''");
    }
    let mut out: String = "VACUUM INTO '".to_owned();
    let n: usize = target.unicode_len();
    let mut i: usize = 0;
    assert(out@ =~= "VACUUM INTO '"@ + quoted(target@.take(0)));
    while i < n
        invariant
            i <= n,
            n == target@.len(),
            "''"@ =~= seq!['\'', '\''],
            out@ == "VACUUM INTO '"@ + quoted(target@.take(i as int)),
        decreases n - i,
    {
        let ghost next = target@.take(i + 1);
        assert(next.drop_last() =~= target@.take(i as int));
        assert(next.last() == target@[i as int]);
        if target.get_char(i) == '\'' {
            out.append("''");
        } else {
            let piece: &str = target.substring_char(i, i + 1);
            assert(piece@ =~= seq![next.last()]);
            out.append(piece);
        }
        assert(out@ =~= "VACUUM INTO '"@ + quoted(next));
        i = i + 1;
    }
    assert(target@.take(n as int) =~= target@);
    out.concat("';")
}

/// The first character of a text is quoted first.
proof fn quoted_from_the_front(text: Seq<char>)
    requires
        text.len() > 0,
    ensures
        quoted(text) == quoted_char(text[0]) + quoted(text.skip(1)),
    decreases text.len(),
{
    let rest = text.skip(1);
    if text.len() == 1 {
        assert(text.drop_last() =~= Seq::<char>::empty());
        assert(rest =~= Seq::<char>::empty());
        assert(quoted(text.drop_last()) == Seq::<char>::empty());
        assert(quoted(text) =~= quoted_char(text[0]) + quoted(rest));
    } else {
        quoted_from_the_front(text.drop_last());
        assert(text.drop_last().skip(1) =~= rest.drop_last());
        assert(rest.last() == text.last());
        assert(quoted(text) =~= quoted_char(text[0]) + quoted(rest));
    }
}

/// A snapshot stands at its target, whatever quotes are in the name: between the
/// quotes of the statement SQL reads the target itself.
pub proof fn law_statement_names_the_target(target: Seq<char>)
    ensures
        read_quoted(quoted(target)) == Some(target),
    decreases target.len(),
{
    if target.len() > 0 {
        let rest = target.skip(1);
        let literal = quoted(target);
        quoted_from_the_front(target);
        law_statement_names_the_target(rest);
        if target[0] == '\'' {
            assert(literal.skip(2) =~= quoted(rest));
        } else {
            assert(literal.skip(1) =~= quoted(rest));
        }
        assert(seq![target[0]] + rest =~= target);
    } else {
        assert(target =~= Seq::<char>::empty());
    }
}

/// What `flate2` makes of a file: the gzip stream, or the error of its last step,
/// or the error of an earlier one.
pub uninterp spec fn gzipped(data: Seq<u8>) -> Result<Result<Seq<u8>, Seq<char>>, Seq<char>>;

/// What came of a compression: the bytes, or the error of the last step, or the
/// error of an earlier one.
pub open spec fn compressed(r: Result<Result<Vec<u8>, String>, String>) -> Result<
    Result<Seq<u8>, Seq<char>>,
    Seq<char>,
> {
    match r {
        Ok(Ok(bytes)) => Ok(Ok(bytes@)),
        Ok(Err(message)) => Ok(Err(message@)),
        Err(message) => Err(message@),
    }
}

/// Compresses bytes with `flate2::write::GzEncoder` at the default level, into
/// memory: everything is written to the encoder, which is then finished. The
/// header carries no time and no file name, so the stream depends on the bytes
/// alone.
#[verifier::external_body]
fn gzip(data: &Vec<u8>) -> (r: Result<Result<Vec<u8>, String>, String>)
    ensures
        compressed(r) == gzipped(data@),
{
    let mut encoder = GzEncoder::new(Vec::new(), Compression::default());
    match encoder.write_all(data.as_slice()) {
        Ok(()) => Ok(encoder.finish().map_err(|e| e.to_string())),
        Err(e) => Err(e.to_string()),
    }
}

/// The contents of the backup file, given what came of the compression, or why
/// there are none.
pub fn backup_contents(outcome: Result<Result<Vec<u8>, String>, String>) -> (r: Result<
    Vec<u8>,
    String,
>)
    ensures
        match compressed(outcome) {
            Ok(Ok(bytes)) => r is Ok && r->Ok_0@ == bytes,
            Ok(Err(why)) => r is Err && r->Err_0@ == "Failed to finalize backup: "@ + why,
            Err(why) => r is Err && r->Err_0@ == "Failed to compress backup: "@ + why,
        },
{
    match outcome {
        Ok(Ok(bytes)) => Ok(bytes),
        Ok(Err(why)) => Err(joined("Failed to finalize backup: ", why.as_str())),
        Err(why) => Err(joined("Failed to compress backup: ", why.as_str())),
    }
}

/// The contents of the backup file for a snapshot.
pub fn compress_snapshot(snapshot: &Vec<u8>) -> (r: Result<Vec<u8>, String>)
    ensures
        match gzipped(snapshot@) {
            Ok(Ok(bytes)) => r is Ok && r->Ok_0@ == bytes,
            Ok(Err(why)) => r is Err && r->Err_0@ == "Failed to finalize backup: "@ + why,
            Err(why) => r is Err && r->Err_0@ == "Failed to compress backup: "@ + why,
        },
{
    backup_contents(gzip(snapshot))
}

/// A file in the directory for backups.
#[derive(Debug, Clone, PartialEq, Eq)]
pub struct BackupFile {
    pub name: String,
    /// When it was last modified, in nanoseconds since the Unix epoch.
    pub modified: i128,
}

/// What a [`BackupFile`] holds.
pub struct FileData {
    pub name: Seq<char>,
    pub modified: i128,
}

impl View for BackupFile {
    type V = FileData;

    open spec fn view(&self) -> FileData {
        FileData { name: self.name@, modified: self.modified }
    }
}

/// What the files hold.
pub open spec fn file_contents(files: Seq<BackupFile>) -> Seq<FileData> {
    files.map_values(|f: BackupFile| f@)
}

/// Whether the name is one of a backup.
pub open spec fn is_backup(name: Seq<char>) -> bool {
    BACKUP_PREFIX@.is_prefix_of(name) && BACKUP_SUFFIX@.is_suffix_of(name)
}

/// The backups among the files.
pub open spec fn backups(files: Seq<FileData>) -> Seq<FileData> {
    files.filter(|f: FileData| is_backup(f.name))
}

/// The files with one more, behind those that are not older.
pub open spec fn with_file(files: Seq<FileData>, file: FileData) -> Seq<FileData>
    decreases files.len(),
{
    if files.len() == 0 || files.last().modified >= file.modified {
        files.push(file)
    } else {
        with_file(files.drop_last(), file).push(files.last())
    }
}

/// The files from the newest to the oldest, equally old ones in their order.
pub open spec fn newest_first(files: Seq<FileData>) -> Seq<FileData>
    decreases files.len(),
{
    if files.len() == 0 {
        files
    } else {
        with_file(newest_first(files.drop_last()), files.last())
    }
}

/// The backups that stay at a frequency.
pub open spec fn kept(files: Seq<FileData>, frequency: Seq<char>) -> Seq<FileData> {
    let all = newest_first(backups(files));
    let keep = keep_count(frequency);
    if keep == 0 || keep >= all.len() {
        all
    } else {
        all.take(keep as int)
    }
}

/// The backups that are deleted at a frequency: all but the newest ones, and
/// none when the frequency keeps all.
pub open spec fn pruned(files: Seq<FileData>, frequency: Seq<char>) -> Seq<FileData> {
    let all = newest_first(backups(files));
    let keep = keep_count(frequency);
    if keep == 0 || keep >= all.len() {
        Seq::empty()
    } else {
        all.skip(keep as int)
    }
}

/// The names of files.
pub open spec fn file_names(files: Seq<FileData>) -> Seq<Seq<char>> {
    files.map_values(|f: FileData| f.name)
}

/// Whether the name is one of a backup.
fn names_backup(name: &str) -> (r: bool)
    ensures
        r == is_backup(name@),
{
    starts_with(name, BACKUP_PREFIX) && ends_with(name, BACKUP_SUFFIX)
}

/// Adds a file behind those that are not older.
fn add_file(files: &mut Vec<BackupFile>, file: BackupFile)
    ensures
        file_contents(final(files)@) == with_file(file_contents(old(files)@), file@),
    decreases old(files).len(),
{
    let ghost before = file_contents(files@);
    let n: usize = files.len();
    if n == 0 || files[n - 1].modified >= file.modified {
        files.push(file);
        assert(file_contents(files@) =~= before.push(file@));
    } else {
        match files.pop() {
            Some(newer_end) => {
                assert(file_contents(files@) =~= before.drop_last());
                assert(before.last() == newer_end@);
                add_file(files, file);
                let ghost mid = file_contents(files@);
                files.push(newer_end);
                assert(file_contents(files@) =~= mid.push(newer_end@));
            },
            None => {},
        }
    }
}

/// The names of the backups to delete at a frequency, the newest first.
pub fn prune_backups(files: &Vec<BackupFile>, frequency: &str) -> (r: Vec<String>)
    ensures
        crate::text::text_contents(r@) == file_names(
            pruned(file_contents(files@), frequency@),
        ),
{
    let keep: usize = backup_keep_count(frequency);
    let mut doomed: Vec<String> = Vec::new();
    if keep == 0 {
        assert(crate::text::text_contents(doomed@) =~= file_names(
            pruned(file_contents(files@), frequency@),
        ));
        return doomed;
    }
    let ghost all = file_contents(files@);
    let ghost mine = |f: FileData| is_backup(f.name);
    let mut sorted: Vec<BackupFile> = Vec::new();
    let mut i: usize = 0;
    assert(all.take(0).filter(mine) =~= Seq::<FileData>::empty()) by {
        reveal(Seq::filter);
    }
    assert(file_contents(sorted@) =~= newest_first(all.take(0).filter(mine)));
    while i < files.len()
        invariant
            i <= files.len(),
            all == file_contents(files@),
            mine == (|f: FileData| is_backup(f.name)),
            file_contents(sorted@) == newest_first(all.take(i as int).filter(mine)),
        decreases files.len() - i,
    {
        let ghost next = all.take(i + 1);
        assert(next.drop_last() =~= all.take(i as int));
        assert(next.last() == files[i as int]@);
        proof {
            reveal(Seq::filter);
        }
        if names_backup(files[i].name.as_str()) {
            assert(next.filter(mine).drop_last() =~= all.take(i as int).filter(mine));
            let file = BackupFile { name: files[i].name.clone(), modified: files[i].modified };
            add_file(&mut sorted, file);
        }
        i = i + 1;
    }
    assert(all.take(all.len() as int) =~= all);
    let ghost ranked = newest_first(backups(all));
    assert(ranked == file_contents(sorted@));
    let mut k: usize = keep;
    assert(crate::text::text_contents(doomed@) =~= Seq::<Seq<char>>::empty());
    while k < sorted.len()
        invariant
            keep <= k,
            k <= sorted.len() || k == keep,
            ranked == file_contents(sorted@),
            doomed.len() == k - keep,
            forall|j: int|
                0 <= j < doomed.len() ==> (#[trigger] doomed[j])@ == ranked[keep + j].name,
        decreases sorted.len() - k,
    {
        doomed.push(sorted[k].name.clone());
        k = k + 1;
    }
    assert(crate::text::text_contents(doomed@) =~= file_names(pruned(all, frequency@)));
    doomed
}

/// A finished backup is recognised as one by its name, and its snapshot is not:
/// a snapshot is never counted or deleted as a backup.
pub proof fn law_backups_are_recognised(stamp: Seq<char>)
    ensures
        is_backup(backup_name(stamp)),
        !is_backup(snapshot_name(stamp)),
{
    reveal_strlit("my_finances-");
    reveal_strlit(".db.gz");
    reveal_strlit(".tmp");
    let b = backup_name(stamp);
    let s = snapshot_name(stamp);
    assert(b.subrange(0, BACKUP_PREFIX@.len() as int) =~= BACKUP_PREFIX@);
    assert(b.subrange(b.len() - BACKUP_SUFFIX@.len(), b.len() as int) =~= BACKUP_SUFFIX@);
    assert(s[s.len() - 1] == 'p');
    if is_backup(s) {
        assert(s.subrange(s.len() - BACKUP_SUFFIX@.len(), s.len() as int)[5] == 'z');
    }
}

/// A new file goes in front of the older ones only.
proof fn with_file_sorts(files: Seq<FileData>, file: FileData)
    requires
        forall|i: int, j: int|
            0 <= i < j < files.len() ==> (#[trigger] files[i]).modified >= (
            #[trigger] files[j]).modified,
    ensures
        with_file(files, file).len() == files.len() + 1,
        forall|i: int, j: int|
            0 <= i < j < with_file(files, file).len() ==> (#[trigger] with_file(
                files,
                file,
            )[i]).modified >= (#[trigger] with_file(files, file)[j]).modified,
        forall|i: int|
            0 <= i < with_file(files, file).len() ==> (#[trigger] with_file(
                files,
                file,
            )[i]).modified >= file.modified || (files.len() > 0 && with_file(
                files,
                file,
            )[i].modified >= files.last().modified),
    decreases files.len(),
{
    if files.len() > 0 && files.last().modified < file.modified {
        let rest = files.drop_last();
        let n = files.len() - 1;
        with_file_sorts(rest, file);
        let mid = with_file(rest, file);
        let all = with_file(files, file);
        assert(all =~= mid.push(files.last()));
        assert forall|i: int, j: int| 0 <= i < j < all.len() implies (#[trigger] all[i]).modified
            >= (#[trigger] all[j]).modified by {
            assert(all[i] == mid[i]);
            if j < mid.len() {
                assert(all[j] == mid[j]);
            } else if rest.len() > 0 {
                assert(rest.last() == files[n - 1]);
                assert(files[n - 1].modified >= files[n].modified);
            }
        }
        assert forall|i: int| 0 <= i < all.len() implies (#[trigger] all[i]).modified
            >= file.modified || all[i].modified >= files.last().modified by {
            if i < mid.len() {
                assert(all[i] == mid[i]);
                if rest.len() > 0 {
                    assert(rest.last() == files[n - 1]);
                    assert(files[n - 1].modified >= files[n].modified);
                }
            }
        }
    } else {
        let all = files.push(file);
        assert forall|i: int, j: int| 0 <= i < j < all.len() implies (#[trigger] all[i]).modified
            >= (#[trigger] all[j]).modified by {
            if j == files.len() {
                assert(files.last() == files[files.len() - 1]);
                if i < files.len() - 1 {
                    assert(files[i].modified >= files[files.len() - 1].modified);
                }
            }
        }
        assert forall|i: int| 0 <= i < all.len() implies (#[trigger] all[i]).modified
            >= file.modified || all[i].modified >= files.last().modified by {
            if i < files.len() - 1 {
                assert(files[i].modified >= files[files.len() - 1].modified);
            }
        }
    }
}

/// A new file is added, and nothing else changes.
proof fn with_file_adds(files: Seq<FileData>, file: FileData)
    ensures
        with_file(files, file).to_multiset() == files.to_multiset().insert(file),
    decreases files.len(),
{
    broadcast use vstd::seq_lib::group_to_multiset_ensures;

    if files.len() > 0 && files.last().modified < file.modified {
        let rest = files.drop_last();
        with_file_adds(rest, file);
        assert(files =~= rest.push(files.last()));
        assert(rest.push(files.last()).to_multiset() =~= rest.to_multiset().insert(files.last()));
        assert(with_file(files, file).to_multiset() =~= rest.to_multiset().insert(file).insert(
            files.last(),
        ));
    }
}

/// A new file goes behind those of its age.
proof fn with_file_keeps_ages(files: Seq<FileData>, file: FileData, age: i128)
    ensures
        with_file(files, file).filter(|f: FileData| f.modified == age) == files.push(file).filter(
            |f: FileData| f.modified == age,
        ),
    decreases files.len(),
{
    let same = |f: FileData| f.modified == age;
    reveal(Seq::filter);
    assert(files.push(file).drop_last() =~= files);
    if files.len() > 0 && files.last().modified < file.modified {
        let rest = files.drop_last();
        with_file_keeps_ages(rest, file, age);
        assert(rest.push(file).drop_last() =~= rest);
        let all = with_file(files, file);
        assert(all.drop_last() =~= with_file(rest, file));
        assert(with_file(rest, file).filter(same) == rest.push(file).filter(same));
        assert(rest.push(file).filter(same) == if same(file) {
            rest.filter(same).push(file)
        } else {
            rest.filter(same)
        });
        assert(files.filter(same) == if same(files.last()) {
            rest.filter(same).push(files.last())
        } else {
            rest.filter(same)
        });
        assert(all.filter(same) =~= files.push(file).filter(same));
    }
}

/// The files stand from the newest to the oldest, each of them once, and equally
/// old ones in their order.
pub proof fn law_newest_first_sorts(files: Seq<FileData>, age: i128)
    ensures
        newest_first(files).len() == files.len(),
        forall|i: int, j: int|
            0 <= i < j < newest_first(files).len() ==> (#[trigger] newest_first(files)[i]).modified
                >= (#[trigger] newest_first(files)[j]).modified,
        newest_first(files).to_multiset() == files.to_multiset(),
        newest_first(files).filter(|f: FileData| f.modified == age) == files.filter(
            |f: FileData| f.modified == age,
        ),
    decreases files.len(),
{
    broadcast use vstd::seq_lib::group_to_multiset_ensures;

    let same = |f: FileData| f.modified == age;
    if files.len() > 0 {
        let rest = files.drop_last();
        law_newest_first_sorts(rest, age);
        with_file_sorts(newest_first(rest), files.last());
        with_file_adds(newest_first(rest), files.last());
        with_file_keeps_ages(newest_first(rest), files.last(), age);
        assert(files =~= rest.push(files.last()));
        assert(rest.push(files.last()).to_multiset() =~= rest.to_multiset().insert(files.last()));
        reveal(Seq::filter);
        assert(newest_first(rest).push(files.last()).drop_last() =~= newest_first(rest));
    }
}

/// Pruning splits the backups: each of them is kept or deleted, once.
pub proof fn law_pruning_splits_the_backups(files: Seq<FileData>, frequency: Seq<char>)
    ensures
        backups(files).to_multiset() == kept(files, frequency).to_multiset().add(
            pruned(files, frequency).to_multiset(),
        ),
{
    broadcast use vstd::seq_lib::group_to_multiset_ensures;

    let all = newest_first(backups(files));
    law_newest_first_sorts(backups(files), 0);
    assert(all =~= kept(files, frequency) + pruned(files, frequency));
    vstd::seq_lib::lemma_multiset_commutative(kept(files, frequency), pruned(files, frequency));
}

/// Pruning keeps as many backups as the frequency says, or all if there are no
/// more, and what it deletes is no newer than what it keeps.
pub proof fn law_pruning_keeps_the_newest(files: Seq<FileData>, frequency: Seq<char>)
    requires
        keep_count(frequency) > 0,
    ensures
        kept(files, frequency).len() == if backups(files).len() < keep_count(frequency) {
            backups(files).len()
        } else {
            keep_count(frequency)
        },
        forall|i: int, j: int|
            0 <= i < kept(files, frequency).len() && 0 <= j < pruned(files, frequency).len() ==> (
            #[trigger] kept(files, frequency)[i]).modified >= (#[trigger] pruned(
                files,
                frequency,
            )[j]).modified,
{
    let all = newest_first(backups(files));
    let keep = keep_count(frequency) as int;
    law_newest_first_sorts(backups(files), 0);
    assert forall|i: int, j: int|
        0 <= i < kept(files, frequency).len() && 0 <= j < pruned(files, frequency).len() implies (
    #[trigger] kept(files, frequency)[i]).modified >= (#[trigger] pruned(
        files,
        frequency,
    )[j]).modified by {
        assert(kept(files, frequency)[i] == all[i]);
        assert(pruned(files, frequency)[j] == all[keep + j]);
    }
}

/// Pruning never deletes anything when backups are off.
pub proof fn law_off_prunes_nothing(files: Seq<FileData>)
    ensures
        pruned(files, "off"@) == Seq::<FileData>::empty(),
{
    reveal_strlit("off");
    reveal_strlit("daily");
    reveal_strlit("weekly");
    reveal_strlit("monthly");
    assert("off"@.len() == 3 && "daily"@.len() == 5 && "weekly"@.len() == 6 && "monthly"@.len()
        == 7);
}

/// Pruning never deletes a file that is not a backup.
pub proof fn law_only_backups_are_pruned(files: Seq<FileData>, frequency: Seq<char>, i: int)
    requires
        0 <= i < pruned(files, frequency).len(),
    ensures
        is_backup(pruned(files, frequency)[i].name),
        files.contains(pruned(files, frequency)[i]),
{
    broadcast use vstd::seq_lib::group_to_multiset_ensures;

    let all = newest_first(backups(files));
    let file = pruned(files, frequency)[i];
    law_newest_first_sorts(backups(files), 0);
    assert(file == all[keep_count(frequency) as int + i]);
    assert(all.contains(file));
    assert(all.to_multiset().contains(file));
    assert(backups(files).to_multiset().contains(file));
    assert(backups(files).contains(file));
    let k = choose|k: int| 0 <= k < backups(files).len() && backups(files)[k] == file;
    crate::filters::filter_only_keeps(files, |f: FileData| is_backup(f.name), k);
}

/// With a backup on record, the next one is due exactly when an interval has
/// passed.
pub proof fn law_due_after_an_interval(d: LedgerData, then: Moment, now: Moment)
    requires
        d.last_backup() == Some(then),
        interval_secs(d.backup_frequency()) is Some,
    ensures
        d.backup_due(now) <==> crate::dates::whole_seconds(
            crate::dates::elapsed_nanos(now, then),
        ) >= interval_secs(d.backup_frequency())->0,
{
}

/// No backup is due at the moment of one.
pub proof fn law_not_due_at_once(d: LedgerData, now: Moment)
    requires
        d.last_backup() == Some(now),
    ensures
        !d.backup_due(now),
{
}

/// The first backup is due at once, if backups are wanted.
pub proof fn law_first_backup_is_due(d: LedgerData, now: Moment)
    requires
        d.setting_value(LAST_BACKUP_KEY@) is None,
    ensures
        d.backup_due(now) <==> interval_secs(d.backup_frequency()) is Some,
{
}

/// No backup is ever due when backups are off, or when nothing was chosen.
pub proof fn law_off_is_never_due(d: LedgerData, now: Moment)
    requires
        d.backup_frequency() == "off"@,
    ensures
        !d.backup_due(now),
{
    reveal_strlit("off");
    reveal_strlit("daily");
    reveal_strlit("weekly");
    reveal_strlit("monthly");
    assert("off"@.len() == 3 && "daily"@.len() == 5 && "weekly"@.len() == 6 && "monthly"@.len()
        == 7);
}

/// A frequency has an interval exactly when it keeps a limited number of
/// backups.
pub proof fn law_interval_and_keep_count_agree(frequency: Seq<char>)
    ensures
        interval_secs(frequency) is Some <==> keep_count(frequency) > 0,
{
}

} // verus!
