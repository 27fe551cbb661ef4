//! Append-only Parquet files with bounded roll intervals.
//!
//! A file's footer is written when it is closed; a file killed before that is
//! unreadable as a whole. So the roll interval bounds what a hard kill can cost.
//! Files are partitioned by channel and UTC date of the write.
//!
//! [`StoreLedger`] decides which file to close, which to open and where a batch
//! goes, and keeps the counts. Whoever holds the files carries its plans out and
//! reports back.

use crate::clock::{self, milli_stamp_string, utc_date_string};
use crate::encode::{self, expected_rows};
use crate::parse;
use crate::schema::Channel;
use crate::session::SessionMetadata;
use crate::sink::StoreRecord;
use crate::text::{joined, same_text};
use vstd::prelude::*;

verus! {

#[derive(Clone, Debug)]
pub struct WriterConfig {
    pub root: String,
    /// Roll after this many bytes, uncompressed estimate.
    pub max_file_bytes: u64,
    /// Roll after this many nanoseconds whatever the size: the ceiling on how
    /// much a hard kill can destroy.
    pub max_file_age: i128,
    /// Rows buffered before a batch is written.
    pub max_batch_rows: usize,
}

impl WriterConfig {
    pub fn new(root: String) -> (out: WriterConfig)
        ensures
            out == (WriterConfig {
                root,
                max_file_bytes: 134_217_728,
                max_file_age: 300_000_000_000,
                max_batch_rows: 10_000,
            }),
    {
        WriterConfig {
            root,
            max_file_bytes: 128 * 1024 * 1024,
            max_file_age: 5 * 60 * 1_000_000_000,
            max_batch_rows: 10_000,
        }
    }
}

/// Counts of what a store has done.
#[derive(Copy, Clone, Debug, PartialEq, Eq, Structural)]
pub struct StoreStats {
    pub open_files: usize,
    pub files_closed: u64,
    pub rows_written: u64,
    pub bytes_written: u64,
    pub records_dequeued: u64,
    pub rows_expected: u64,
}

/// A count as a signed number, capped where it does not fit.
pub open spec fn capped(n: u64) -> int {
    if n <= i64::MAX {
        n as int
    } else {
        i64::MAX as int
    }
}

impl StoreStats {
    /// Rows the encoder should have produced but did not. Must be zero: anything
    /// else means that rows vanish between the queue and disk.
    pub fn rows_lost(&self) -> (out: i64)
        ensures
            out == capped(self.rows_expected) - capped(self.rows_written),
    {
        let expected: i64 = if self.rows_expected <= i64::MAX as u64 {
            self.rows_expected as i64
        } else {
            i64::MAX
        };
        let written: i64 = if self.rows_written <= i64::MAX as u64 {
            self.rows_written as i64
        } else {
            i64::MAX
        };
        expected - written
    }
}

// ---------------------------------------------------------------------------
// Names
// ---------------------------------------------------------------------------
/// The partition that an instant belongs to: its UTC date.
pub open spec fn partition_of(at: int) -> Seq<char> {
    clock::date_text(clock::utc_date(clock::seconds_of(at)))
}

/// The partition key of an instant. UTC only.
pub fn partition_key(at: i128) -> (out: String)
    requires
        clock::in_calendar(at as int),
    ensures
        out@ == partition_of(at as int),
{
    utc_date_string(at)
}

/// The directory of a partition, below the channel's own.
pub open spec fn partition_dir_text(partition: Seq<char>) -> Seq<char> {
    "date="@ + partition
}

pub fn partition_dir(partition: &str) -> (out: String)
    ensures
        out@ == partition_dir_text(partition@),
{
    joined("date=", partition)
}

/// The name of a data file: channel, when it was opened, and session.
pub open spec fn filename_text(channel: Channel, at: int, session_id: Seq<char>) -> Seq<char> {
    channel.label() + seq!['-'] + clock::milli_stamp(clock::seconds_of(at), clock::nanos_of(at))
        + seq!['-'] + session_id + ".parquet"@
}

pub fn data_filename(channel: Channel, at: i128, session_id: &str) -> (out: String)
    requires
        clock::in_calendar(at as int),
    ensures
        out@ == filename_text(channel, at as int, session_id@),
{
    let mut out = channel.as_str().to_owned();
    out.push('-');
    out.append(milli_stamp_string(at).as_str());
    out.push('-');
    out.append(session_id);
    out.append(".parquet");
    assert(out@ =~= filename_text(channel, at as int, session_id@));
    out
}

// ---------------------------------------------------------------------------
// Open files
// ---------------------------------------------------------------------------
/// A partition of one channel.
#[derive(Clone, Debug)]
pub struct FileKey {
    pub channel: Channel,
    pub partition: String,
}

impl View for FileKey {
    type V = (Channel, Seq<char>);

    open spec fn view(&self) -> (Channel, Seq<char>) {
        (self.channel, self.partition@)
    }
}

/// One open file.
#[derive(Debug)]
pub struct OpenFile {
    pub channel: Channel,
    pub partition_date: String,
    pub opened_at: i128,
    pub bytes: u64,
    pub rows: u64,
}

/// What is known of an open file.
pub struct FileFacts {
    pub opened_at: int,
    pub bytes: int,
    pub rows: int,
}

impl OpenFile {
    pub open spec fn id(self) -> (Channel, Seq<char>) {
        (self.channel, self.partition_date@)
    }

    pub open spec fn facts(self) -> FileFacts {
        FileFacts {
            opened_at: self.opened_at as int,
            bytes: self.bytes as int,
            rows: self.rows as int,
        }
    }
}

/// No partition has two open files.
pub open spec fn distinct_files(files: Seq<OpenFile>) -> bool {
    forall|i: int, j: int|
        0 <= i < j < files.len() ==> (#[trigger] files[i]).id() != (#[trigger] files[j]).id()
}

pub open spec fn is_at(files: Seq<OpenFile>, id: (Channel, Seq<char>), i: int) -> bool {
    0 <= i < files.len() && files[i].id() == id
}

/// The open files by partition.
pub open spec fn file_map(files: Seq<OpenFile>) -> Map<(Channel, Seq<char>), FileFacts> {
    Map::new(
        |id: (Channel, Seq<char>)| exists|i: int| is_at(files, id, i),
        |id: (Channel, Seq<char>)| files[choose|i: int| is_at(files, id, i)].facts(),
    )
}

proof fn lemma_file_at(files: Seq<OpenFile>, i: int)
    requires
        distinct_files(files),
        0 <= i < files.len(),
    ensures
        file_map(files).dom().contains(files[i].id()),
        file_map(files)[files[i].id()] == files[i].facts(),
{
    let id = files[i].id();
    assert(is_at(files, id, i));
    let k = choose|k: int| is_at(files, id, k);
    assert(is_at(files, id, k));
    if k != i {
        let low = if k < i {
            k
        } else {
            i
        };
        let high = if k < i {
            i
        } else {
            k
        };
        assert(files[low].id() != files[high].id());
    }
}

proof fn lemma_file_map_by_places(
    files: Seq<OpenFile>,
    map: Map<(Channel, Seq<char>), FileFacts>,
)
    requires
        distinct_files(files),
        forall|i: int|
            0 <= i < files.len() ==> map.dom().contains((#[trigger] files[i]).id())
                && map[files[i].id()] == files[i].facts(),
        forall|id: (Channel, Seq<char>)| #[trigger]
            map.dom().contains(id) ==> exists|i: int| is_at(files, id, i),
    ensures
        file_map(files) == map,
{
    assert forall|id: (Channel, Seq<char>)| file_map(files).dom().contains(id) == map.dom().contains(
        id,
    ) && (map.dom().contains(id) ==> file_map(files)[id] == map[id]) by {
        if file_map(files).dom().contains(id) {
            let i = choose|i: int| is_at(files, id, i);
            assert(files[i].id() == id);
        }
        if map.dom().contains(id) {
            let i = choose|i: int| is_at(files, id, i);
            assert(files[i].id() == id);
            lemma_file_at(files, i);
        }
    }
    assert(file_map(files) =~= map);
}

/// The partitions that have the session's file already.
pub open spec fn key_set(keys: Seq<FileKey>) -> Set<(Channel, Seq<char>)> {
    Set::new(|id: (Channel, Seq<char>)| exists|i: int| 0 <= i < keys.len() && #[trigger] keys[i]@ == id)
}

// ---------------------------------------------------------------------------
// The ledger
// ---------------------------------------------------------------------------
/// What the store knows: the session, the open files and the counts.
///
/// A ledger cannot exist without a session, so that no row can be written that
/// no session covers.
#[derive(Debug)]
pub struct StoreLedger {
    pub config: WriterConfig,
    pub session: SessionMetadata,
    pub open: Vec<OpenFile>,
    pub sidecars: Vec<FileKey>,
    pub files_closed: u64,
    pub rows_written: u64,
    pub bytes_written: u64,
    /// Records taken off the queue.
    pub records_dequeued: u64,
    /// Rows the encoder should have produced from those records.
    pub rows_expected: u64,
}

/// What a write needs before its batch.
#[derive(Debug)]
pub struct WritePlan {
    /// The partition the batch goes to.
    pub partition: String,
    /// Close the partition's open file first: it is due.
    pub close: bool,
    /// Then open a file, since none is open.
    pub open: Option<NewFile>,
}

/// A file to be made.
#[derive(Debug)]
pub struct NewFile {
    pub dir: String,
    pub filename: String,
    /// The session's own file, where the partition lacks it. It lands before any
    /// data row.
    pub sidecar: Option<String>,
}

impl StoreLedger {
    pub open spec fn files(self) -> Map<(Channel, Seq<char>), FileFacts> {
        file_map(self.open@)
    }

    pub open spec fn covered(self) -> Set<(Channel, Seq<char>)> {
        key_set(self.sidecars@)
    }

    /// One file per partition at most, each opened at a time the calendar
    /// reaches, and each in a partition that has the session's file.
    pub open spec fn wf(self) -> bool {
        &&& distinct_files(self.open@)
        &&& forall|i: int|
            0 <= i < self.open@.len() ==> clock::in_calendar(
                (#[trigger] self.open@[i]).opened_at as int,
            )
        &&& forall|i: int|
            0 <= i < self.open@.len() ==> self.covered().contains((#[trigger] self.open@[i]).id())
    }

    /// Whether a file has reached its age.
    pub open spec fn too_old(self, file: FileFacts, now: int) -> bool {
        now - file.opened_at >= self.config.max_file_age
    }

    /// Whether a file must be rolled before another batch: it is full or has
    /// reached its age.
    pub open spec fn due(self, file: FileFacts, at: int) -> bool {
        file.bytes >= self.config.max_file_bytes || self.too_old(file, at)
    }

    /// Everything but the open files.
    pub open spec fn same_but_files(self, other: StoreLedger) -> bool {
        &&& self.config == other.config
        &&& self.session == other.session
        &&& self.sidecars == other.sidecars
        &&& self.files_closed == other.files_closed
        &&& self.rows_written == other.rows_written
        &&& self.bytes_written == other.bytes_written
        &&& self.records_dequeued == other.records_dequeued
        &&& self.rows_expected == other.rows_expected
    }

    /// Start a ledger for one session.
    pub fn open(config: WriterConfig, session: SessionMetadata) -> (out: StoreLedger)
        ensures
            out.wf(),
            out.config == config,
            out.session == session,
            out.files() == Map::<(Channel, Seq<char>), FileFacts>::empty(),
            out.covered() == Set::<(Channel, Seq<char>)>::empty(),
            out.files_closed == 0,
            out.rows_written == 0,
            out.bytes_written == 0,
            out.records_dequeued == 0,
            out.rows_expected == 0,
    {
        let out = StoreLedger {
            config,
            session,
            open: Vec::new(),
            sidecars: Vec::new(),
            files_closed: 0,
            rows_written: 0,
            bytes_written: 0,
            records_dequeued: 0,
            rows_expected: 0,
        };
        assert(out.files() =~= Map::<(Channel, Seq<char>), FileFacts>::empty());
        assert(out.covered() =~= Set::<(Channel, Seq<char>)>::empty());
        out
    }

    pub fn session(&self) -> (out: &SessionMetadata)
        ensures
            *out == self.session,
    {
        &self.session
    }

    /// Where a partition's open file stands.
    fn find(&self, channel: Channel, partition: &str) -> (out: Option<usize>)
        ensures
            match out {
                Some(i) => is_at(self.open@, (channel, partition@), i as int),
                None => !self.files().dom().contains((channel, partition@)),
            },
    {
        let mut i: usize = 0;
        while i < self.open.len()
            invariant
                i <= self.open@.len(),
                forall|k: int| 0 <= k < i ==> !is_at(self.open@, (channel, partition@), k),
            decreases self.open@.len() - i,
        {
            if self.open[i].channel == channel && same_text(
                self.open[i].partition_date.as_str(),
                partition,
            ) {
                return Some(i);
            }
            i += 1;
        }
        None
    }

    fn is_covered(&self, channel: Channel, partition: &str) -> (out: bool)
        ensures
            out == self.covered().contains((channel, partition@)),
    {
        let mut i: usize = 0;
        while i < self.sidecars.len()
            invariant
                i <= self.sidecars@.len(),
                forall|k: int|
                    0 <= k < i ==> (#[trigger] self.sidecars@[k])@ != (channel, partition@),
            decreases self.sidecars@.len() - i,
        {
            if self.sidecars[i].channel == channel && same_text(
                self.sidecars[i].partition.as_str(),
                partition,
            ) {
                assert(self.sidecars@[i as int]@ == (channel, partition@));
                return true;
            }
            i += 1;
        }
        false
    }

    /// Whether the partition's open file must be rolled first.
    pub fn should_roll(&self, channel: Channel, partition: &str, at: i128) -> (out: bool)
        requires
            self.wf(),
            clock::in_calendar(at as int),
        ensures
            out == ({
                let id = (channel, partition@);
                self.files().dom().contains(id) && self.due(self.files()[id], at as int)
            }),
    {
        match self.find(channel, partition) {
            Some(i) => {
                proof {
                    lemma_file_at(self.open@, i as int);
                }
                let file = &self.open[i];
                if file.bytes >= self.config.max_file_bytes {
                    return true;
                }
                at - file.opened_at >= self.config.max_file_age
            },
            None => false,
        }
    }

    /// What must happen before a batch of `channel` can be written at `at`.
    pub fn plan_write(&self, channel: Channel, at: i128) -> (out: WritePlan)
        requires
            self.wf(),
            clock::in_calendar(at as int),
        ensures
            ({
                let id = (channel, partition_of(at as int));
                let is_open = self.files().dom().contains(id);
                &&& out.partition@ == id.1
                &&& out.close == (is_open && self.due(self.files()[id], at as int))
                &&& match out.open {
                    None => is_open && !out.close,
                    Some(file) => {
                        &&& !is_open || out.close
                        &&& file.dir@ == partition_dir_text(id.1)
                        &&& file.filename@ == filename_text(
                            channel,
                            at as int,
                            self.session.session_id@,
                        )
                        &&& match file.sidecar {
                            None => self.covered().contains(id),
                            Some(name) => !self.covered().contains(id) && name@ == "_session-"@
                                + self.session.session_id@ + ".json"@,
                        }
                    },
                }
            }),
    {
        let partition = partition_key(at);
        let close = self.should_roll(channel, partition.as_str(), at);
        let found = self.find(channel, partition.as_str());
        proof {
            if let Some(i) = found {
                lemma_file_at(self.open@, i as int);
            }
        }
        let open = if close || found.is_none() {
            let sidecar = if self.is_covered(channel, partition.as_str()) {
                None
            } else {
                Some(self.session.sidecar_filename())
            };
            Some(
                NewFile {
                    dir: partition_dir(partition.as_str()),
                    filename: data_filename(channel, at, self.session.session_id.as_str()),
                    sidecar,
                },
            )
        } else {
            None
        };
        WritePlan { partition, close, open }
    }

    /// Give up a partition's open file, which is about to be closed. It counts as
    /// closed only once [`StoreLedger::closed`] is told so.
    pub fn begin_close(&mut self, channel: Channel, partition: &str) -> (out: Option<OpenFile>)
        requires
            old(self).wf(),
        ensures
            final(self).wf(),
            final(self).same_but_files(*old(self)),
            final(self).files() == old(self).files().remove((channel, partition@)),
            match out {
                Some(file) => {
                    &&& file.id() == (channel, partition@)
                    &&& old(self).files().dom().contains(file.id())
                    &&& old(self).files()[file.id()] == file.facts()
                },
                None => !old(self).files().dom().contains((channel, partition@)),
            },
    {
        let ghost id = (channel, partition@);
        match self.find(channel, partition) {
            Some(i) => {
                let ghost before = self.open@;
                let file = self.open.remove(i);
                proof {
                    lemma_file_at(before, i as int);
                    let wanted = file_map(before).remove(id);
                    assert forall|k: int| 0 <= k < self.open@.len() implies wanted.dom().contains(
                        (#[trigger] self.open@[k]).id(),
                    ) && wanted[self.open@[k].id()] == self.open@[k].facts() by {
                        let p = if k < i {
                            k
                        } else {
                            k + 1
                        };
                        assert(self.open@[k] == before[p]);
                        lemma_file_at(before, p);
                        if p < i {
                            assert(before[p].id() != before[i as int].id());
                        } else {
                            assert(before[i as int].id() != before[p].id());
                        }
                    }
                    assert forall|other: (Channel, Seq<char>)| #[trigger]
                        wanted.dom().contains(other) implies exists|k: int|
                        is_at(self.open@, other, k) by {
                        let p = choose|p: int| is_at(before, other, p);
                        assert(is_at(before, other, p));
                        if p < i {
                            assert(is_at(self.open@, other, p));
                        } else {
                            assert(is_at(self.open@, other, p - 1));
                        }
                    }
                    assert(distinct_files(self.open@)) by {
                        assert forall|a: int, b: int| 0 <= a < b < self.open@.len() implies (
                        #[trigger] self.open@[a]).id() != (#[trigger] self.open@[b]).id() by {
                            let p = if a < i {
                                a
                            } else {
                                a + 1
                            };
                            let q = if b < i {
                                b
                            } else {
                                b + 1
                            };
                            assert(before[p].id() != before[q].id());
                        }
                    }
                    lemma_file_map_by_places(self.open@, wanted);
                }
                Some(file)
            },
            None => {
                assert(self.files() =~= old(self).files().remove(id));
                None
            },
        }
    }

    /// A footer was written.
    pub fn closed(&mut self)
        requires
            old(self).files_closed < u64::MAX,
        ensures
            *final(self) == (StoreLedger {
                files_closed: (old(self).files_closed + 1) as u64,
                ..*old(self)
            }),
    {
        self.files_closed = self.files_closed + 1;
    }

    /// The session's own file was written into a partition.
    pub fn sidecar_written(&mut self, channel: Channel, partition: String)
        requires
            old(self).wf(),
        ensures
            final(self).wf(),
            final(self).covered() == old(self).covered().insert((channel, partition@)),
            final(self).open == old(self).open,
            final(self).stats_only() == old(self).stats_only(),
            final(self).session == old(self).session,
            final(self).config == old(self).config,
    {
        let ghost before = self.sidecars@;
        let key = FileKey { channel, partition };
        self.sidecars.push(key);
        proof {
            lemma_key_set_push(before, key);
        }
    }

    /// The counts.
    pub open spec fn stats_only(self) -> (u64, u64, u64, u64, u64) {
        (
            self.files_closed,
            self.rows_written,
            self.bytes_written,
            self.records_dequeued,
            self.rows_expected,
        )
    }

    /// A new file stands open for a partition.
    pub fn opened(&mut self, channel: Channel, partition: String, at: i128)
        requires
            old(self).wf(),
            clock::in_calendar(at as int),
            !old(self).files().dom().contains((channel, partition@)),
            old(self).covered().contains((channel, partition@)),
        ensures
            final(self).wf(),
            final(self).same_but_files(*old(self)),
            final(self).files() == old(self).files().insert(
                (channel, partition@),
                FileFacts { opened_at: at as int, bytes: 0, rows: 0 },
            ),
    {
        let ghost before = self.open@;
        let ghost id = (channel, partition@);
        self.open.push(
            OpenFile { channel, partition_date: partition, opened_at: at, bytes: 0, rows: 0 },
        );
        proof {
            let all = self.open@;
            let last = before.len() as int;
            assert(all[last].id() == id);
            assert forall|i: int| 0 <= i < before.len() implies (#[trigger] before[i]).id() != id by {
                if before[i].id() == id {
                    assert(is_at(before, id, i));
                }
            }
            assert forall|i: int, j: int| 0 <= i < j < all.len() implies (#[trigger] all[i]).id()
                != (#[trigger] all[j]).id() by {
                assert(all[i] == before[i]);
                if j < last {
                    assert(all[j] == before[j]);
                }
            }
            let wanted = file_map(before).insert(
                id,
                FileFacts { opened_at: at as int, bytes: 0, rows: 0 },
            );
            assert forall|i: int| 0 <= i < all.len() implies wanted.dom().contains(
                (#[trigger] all[i]).id(),
            ) && wanted[all[i].id()] == all[i].facts() by {
                if i < last {
                    assert(all[i] == before[i]);
                    lemma_file_at(before, i);
                }
            }
            assert forall|other: (Channel, Seq<char>)| #[trigger]
                wanted.dom().contains(other) implies exists|i: int| is_at(all, other, i) by {
                if other == id {
                    assert(is_at(all, other, last));
                } else {
                    let i = choose|i: int| is_at(before, other, i);
                    assert(is_at(before, other, i));
                    assert(is_at(all, other, i));
                }
            }
            lemma_file_map_by_places(all, wanted);
        }
    }

    /// A batch was written to a partition's open file. Nothing is counted where
    /// no file is open.
    pub fn written(&mut self, channel: Channel, partition: &str, rows: u64, bytes: u64)
        requires
            old(self).wf(),
            old(self).rows_written + rows <= u64::MAX,
            old(self).bytes_written + bytes <= u64::MAX,
            ({
                let id = (channel, partition@);
                old(self).files().dom().contains(id) ==> old(self).files()[id].rows + rows
                    <= u64::MAX && old(self).files()[id].bytes + bytes <= u64::MAX
            }),
        ensures
            final(self).wf(),
            ({
                let id = (channel, partition@);
                let file = old(self).files()[id];
                if old(self).files().dom().contains(id) {
                    &&& final(self).files() == old(self).files().insert(
                        id,
                        FileFacts {
                            opened_at: file.opened_at,
                            bytes: file.bytes + bytes,
                            rows: file.rows + rows,
                        },
                    )
                    &&& final(self).same_but_files(
                        StoreLedger {
                            rows_written: (old(self).rows_written + rows) as u64,
                            bytes_written: (old(self).bytes_written + bytes) as u64,
                            ..*old(self)
                        },
                    )
                } else {
                    *final(self) == *old(self)
                }
            }),
    {
        match self.find(channel, partition) {
            Some(i) => {
                let ghost before = self.open@;
                let ghost id = (channel, partition@);
                proof {
                    lemma_file_at(before, i as int);
                }
                let file = &mut self.open[i];
                file.rows = file.rows + rows;
                file.bytes = file.bytes + bytes;
                proof {
                    let all = self.open@;
                    let old_facts = before[i as int].facts();
                    let wanted = file_map(before).insert(
                        id,
                        FileFacts {
                            opened_at: old_facts.opened_at,
                            bytes: old_facts.bytes + bytes,
                            rows: old_facts.rows + rows,
                        },
                    );
                    assert forall|k: int| 0 <= k < all.len() implies (#[trigger] all[k]).id()
                        == before[k].id() by {}
                    assert forall|a: int, b: int| 0 <= a < b < all.len() implies (
                    #[trigger] all[a]).id() != (#[trigger] all[b]).id() by {
                        assert(before[a].id() != before[b].id());
                    }
                    assert forall|k: int| 0 <= k < all.len() implies wanted.dom().contains(
                        (#[trigger] all[k]).id(),
                    ) && wanted[all[k].id()] == all[k].facts() by {
                        lemma_file_at(before, k);
                        if k < i {
                            assert(before[k].id() != before[i as int].id());
                        } else if k > i {
                            assert(before[i as int].id() != before[k].id());
                        }
                    }
                    assert forall|other: (Channel, Seq<char>)| #[trigger]
                        wanted.dom().contains(other) implies exists|k: int|
                        is_at(all, other, k) by {
                        if other == id {
                            assert(is_at(all, other, i as int));
                        } else {
                            let k = choose|k: int| is_at(before, other, k);
                            assert(is_at(before, other, k));
                            assert(is_at(all, other, k));
                        }
                    }
                    lemma_file_map_by_places(all, wanted);
                    assert forall|k: int| 0 <= k < all.len() implies clock::in_calendar(
                        (#[trigger] all[k]).opened_at as int,
                    ) && self.covered().contains(all[k].id()) by {
                        assert(clock::in_calendar(before[k].opened_at as int));
                        assert(old(self).covered().contains(before[k].id()));
                    }
                }
                self.rows_written = self.rows_written + rows;
                self.bytes_written = self.bytes_written + bytes;
            },
            None => {},
        }
    }

    /// Whether a partition is among the first `upto` open files and its file has
    /// reached its age.
    spec fn is_listed(self, id: (Channel, Seq<char>), now: int, upto: int) -> bool {
        exists|p: int|
            p < upto && is_at(self.open@, id, p) && self.too_old(self.open@[p].facts(), now)
    }

    /// The partitions whose open files have reached their age, whether or not new
    /// data came for them. An idle channel would otherwise hold a file without a
    /// footer open for good.
    pub fn due_files(&self, now: i128) -> (out: Vec<FileKey>)
        requires
            self.wf(),
            clock::in_calendar(now as int),
        ensures
            key_set(out@) == self.due_set(now as int),
            distinct_keys(out@),
    {
        let mut out: Vec<FileKey> = Vec::new();
        let mut i: usize = 0;
        while i < self.open.len()
            invariant
                i <= self.open@.len(),
                self.wf(),
                clock::in_calendar(now as int),
                distinct_keys(out@),
                forall|k: int|
                    0 <= k < out@.len() ==> self.is_listed((#[trigger] out@[k])@, now as int, i as int),
                forall|p: int|
                    0 <= p < i && self.too_old((#[trigger] self.open@[p]).facts(), now as int)
                        ==> key_set(out@).contains(self.open@[p].id()),
            decreases self.open@.len() - i,
        {
            if now - self.open[i].opened_at >= self.config.max_file_age {
                let ghost before = out@;
                let key = FileKey {
                    channel: self.open[i].channel,
                    partition: self.open[i].partition_date.clone(),
                };
                out.push(key);
                proof {
                    let id = self.open@[i as int].id();
                    assert(key@ == id);
                    assert(is_at(self.open@, id, i as int));
                    assert forall|k: int| 0 <= k < before.len() implies (#[trigger] before[k])@
                        != id by {
                        assert(self.is_listed(before[k]@, now as int, i as int));
                        let p = choose|p: int|
                            p < i && is_at(self.open@, before[k]@, p) && self.too_old(
                                self.open@[p].facts(),
                                now as int,
                            );
                        assert(self.open@[p].id() != self.open@[i as int].id());
                    }
                    lemma_key_set_push(before, key);
                    assert(distinct_keys(out@)) by {
                        assert forall|a: int, b: int| 0 <= a < b < out@.len() implies (
                        #[trigger] out@[a])@ != (#[trigger] out@[b])@ by {
                            assert(out@[a] == before[a]);
                            if b < before.len() {
                                assert(out@[b] == before[b]);
                            }
                        }
                    }
                }
            }
            assert forall|k: int| 0 <= k < out@.len() implies self.is_listed(
                (#[trigger] out@[k])@,
                now as int,
                i + 1,
            ) by {
                if !self.is_listed(out@[k]@, now as int, i as int) {
                    assert(is_at(self.open@, out@[k]@, i as int));
                } else {
                    let p = choose|p: int|
                        p < i && is_at(self.open@, out@[k]@, p) && self.too_old(
                            self.open@[p].facts(),
                            now as int,
                        );
                    assert(is_at(self.open@, out@[k]@, p));
                }
            }
            i += 1;
        }
        proof {
            assert forall|id: (Channel, Seq<char>)| #[trigger]
                key_set(out@).contains(id) == self.due_set(now as int).contains(id) by {
                if key_set(out@).contains(id) {
                    let k = choose|k: int| 0 <= k < out@.len() && #[trigger] out@[k]@ == id;
                    assert(self.is_listed(out@[k]@, now as int, i as int));
                    let p = choose|p: int|
                        p < i && is_at(self.open@, out@[k]@, p) && self.too_old(
                            self.open@[p].facts(),
                            now as int,
                        );
                    lemma_file_at(self.open@, p);
                }
                if self.due_set(now as int).contains(id) {
                    let p = choose|p: int| is_at(self.open@, id, p);
                    assert(is_at(self.open@, id, p));
                    lemma_file_at(self.open@, p);
                    assert(self.too_old(self.open@[p].facts(), now as int));
                }
            }
            assert(key_set(out@) =~= self.due_set(now as int));
        }
        out
    }

    /// The partitions whose open files have reached their age.
    pub open spec fn due_set(self, now: int) -> Set<(Channel, Seq<char>)> {
        Set::new(
            |id: (Channel, Seq<char>)|
                self.files().dom().contains(id) && self.too_old(self.files()[id], now),
        )
    }

    /// The partitions that have an open file.
    pub fn open_files(&self) -> (out: Vec<FileKey>)
        requires
            self.wf(),
        ensures
            key_set(out@) == self.files().dom(),
            distinct_keys(out@),
            out@.len() == self.open@.len(),
    {
        let mut out: Vec<FileKey> = Vec::new();
        let mut i: usize = 0;
        while i < self.open.len()
            invariant
                i == out@.len() <= self.open@.len(),
                forall|k: int| 0 <= k < i ==> (#[trigger] out@[k])@ == self.open@[k].id(),
            decreases self.open@.len() - i,
        {
            out.push(
                FileKey {
                    channel: self.open[i].channel,
                    partition: self.open[i].partition_date.clone(),
                },
            );
            i += 1;
        }
        proof {
            assert forall|a: int, b: int| 0 <= a < b < out@.len() implies (#[trigger] out@[a])@ != (
            #[trigger] out@[b])@ by {
                assert(self.open@[a].id() != self.open@[b].id());
            }
            assert forall|id: (Channel, Seq<char>)| #[trigger]
                key_set(out@).contains(id) == self.files().dom().contains(id) by {
                if key_set(out@).contains(id) {
                    let k = choose|k: int| 0 <= k < out@.len() && #[trigger] out@[k]@ == id;
                    assert(is_at(self.open@, id, k));
                }
                if self.files().dom().contains(id) {
                    let k = choose|k: int| is_at(self.open@, id, k);
                    assert(is_at(self.open@, id, k));
                    assert(out@[k]@ == id);
                }
            }
            assert(key_set(out@) =~= self.files().dom());
        }
        out
    }

    /// The partitions whose session file must be rewritten when the session ends.
    pub fn sidecar_partitions(&self) -> (out: &Vec<FileKey>)
        ensures
            *out == self.sidecars,
    {
        &self.sidecars
    }

    /// Records were taken off the queue. What they should amount to is counted
    /// before anything can go wrong with them.
    pub fn dequeued(&mut self, channel: Channel, records: &[StoreRecord])
        requires
            old(self).wf(),
            encode::row_count(channel, encode::record_views(records@)) <= usize::MAX,
            old(self).records_dequeued + records@.len() <= u64::MAX,
            old(self).rows_expected + encode::row_count(channel, encode::record_views(records@))
                <= u64::MAX,
        ensures
            *final(self) == (StoreLedger {
                records_dequeued: (old(self).records_dequeued + records@.len()) as u64,
                rows_expected: (old(self).rows_expected + encode::row_count(
                    channel,
                    encode::record_views(records@),
                )) as u64,
                ..*old(self)
            }),
    {
        let rows: usize = expected_rows(channel, records);
        self.records_dequeued = self.records_dequeued + records.len() as u64;
        self.rows_expected = self.rows_expected + rows as u64;
    }

    /// The session ends. Its end time goes into every session file.
    pub fn end_session(&mut self, ended_at: i128)
        ensures
            *final(self) == (StoreLedger {
                session: SessionMetadata { ended_at: Some(ended_at), ..old(self).session },
                ..*old(self)
            }),
    {
        self.session.close(ended_at);
    }

    pub fn stats(&self) -> (out: StoreStats)
        ensures
            out == (StoreStats {
                open_files: self.open.len(),
                files_closed: self.files_closed,
                rows_written: self.rows_written,
                bytes_written: self.bytes_written,
                records_dequeued: self.records_dequeued,
                rows_expected: self.rows_expected,
            }),
    {
        StoreStats {
            open_files: self.open.len(),
            files_closed: self.files_closed,
            rows_written: self.rows_written,
            bytes_written: self.bytes_written,
            records_dequeued: self.records_dequeued,
            rows_expected: self.rows_expected,
        }
    }
}

/// No partition is named twice.
pub open spec fn distinct_keys(keys: Seq<FileKey>) -> bool {
    forall|i: int, j: int|
        0 <= i < j < keys.len() ==> (#[trigger] keys[i])@ != (#[trigger] keys[j])@
}

proof fn lemma_key_set_push(keys: Seq<FileKey>, key: FileKey)
    ensures
        key_set(keys.push(key)) == key_set(keys).insert(key@),
{
    let all = keys.push(key);
    assert(all[keys.len() as int]@ == key@);
    assert forall|id: (Channel, Seq<char>)| #[trigger]
        key_set(all).contains(id) == key_set(keys).insert(key@).contains(id) by {
        if key_set(keys).contains(id) {
            let k = choose|k: int| 0 <= k < keys.len() && #[trigger] keys[k]@ == id;
            assert(all[k]@ == id);
        }
        if key_set(all).contains(id) && id != key@ {
            let k = choose|k: int| 0 <= k < all.len() && #[trigger] all[k]@ == id;
            assert(keys[k]@ == id);
        }
    }
    assert(key_set(all) =~= key_set(keys).insert(key@));
}

// ---------------------------------------------------------------------------
// Grouping
// ---------------------------------------------------------------------------
/// The records of one channel, in order.
pub open spec fn of_channel(records: Seq<StoreRecord>, channel: Channel) -> Seq<StoreRecord> {
    records.filter(|record: StoreRecord| record.channel == channel)
}

/// Whether groups are the records sorted by channel: each group is all the
/// records of its channel in order, no channel occurs twice, and no record is
/// left out.
pub open spec fn groups_of(
    records: Seq<StoreRecord>,
    groups: Seq<(Channel, Vec<StoreRecord>)>,
) -> bool {
    &&& forall|g: int|
        0 <= g < groups.len() ==> (#[trigger] groups[g]).1@ == of_channel(records, groups[g].0)
            && groups[g].1@.len() > 0
    &&& forall|g: int, h: int|
        0 <= g < h < groups.len() ==> (#[trigger] groups[g]).0 != (#[trigger] groups[h]).0
    &&& forall|i: int|
        0 <= i < records.len() ==> exists|g: int|
            0 <= g < groups.len() && (#[trigger] groups[g]).0 == (#[trigger] records[i]).channel
}

proof fn lemma_of_channel_push(records: Seq<StoreRecord>, record: StoreRecord, channel: Channel)
    ensures
        of_channel(records.push(record), channel) == (if record.channel == channel {
            of_channel(records, channel).push(record)
        } else {
            of_channel(records, channel)
        }),
{
    reveal(Seq::filter);
    assert(records.push(record).drop_last() =~= records);
}

proof fn lemma_of_channel_none(records: Seq<StoreRecord>, channel: Channel)
    requires
        forall|i: int| 0 <= i < records.len() ==> (#[trigger] records[i]).channel != channel,
    ensures
        of_channel(records, channel) == Seq::<StoreRecord>::empty(),
    decreases records.len(),
{
    reveal(Seq::filter);
    if records.len() > 0 {
        let rest = records.drop_last();
        assert forall|i: int| 0 <= i < rest.len() implies (#[trigger] rest[i]).channel
            != channel by {
            assert(records[i].channel != channel);
        }
        lemma_of_channel_none(rest, channel);
        assert(records[records.len() - 1].channel != channel);
    }
}

/// Group a mixed batch by channel: each file holds one channel only.
pub fn group_by_channel(records: Vec<StoreRecord>) -> (out: Vec<(Channel, Vec<StoreRecord>)>)
    ensures
        groups_of(records@, out@),
{
    let ghost all = records@;
    let mut out: Vec<(Channel, Vec<StoreRecord>)> = Vec::new();
    let ghost mut done = Seq::<StoreRecord>::empty();
    assert(all.take(0) =~= done);
    for record in it: records
        invariant
            it.seq() == all,
            done == all.take(it.index()),
            groups_of(done, out@),
    {
        let ghost before = out@;
        let ghost next = done.push(record);
        assert(all.take(it.index() + 1) =~= next);
        let mut g: usize = 0;
        while g < out.len() && out[g].0 != record.channel
            invariant
                g <= out@.len(),
                out@ == before,
                forall|h: int| 0 <= h < g ==> (#[trigger] before[h]).0 != record.channel,
            decreases out@.len() - g,
        {
            g += 1;
        }
        let ghost channel = record.channel;
        if g < out.len() {
            let group = &mut out[g];
            group.1.push(record);
            proof {
                assert forall|h: int| 0 <= h < out@.len() implies (#[trigger] out@[h]).1@
                    == of_channel(next, out@[h].0) && out@[h].1@.len() > 0 by {
                    lemma_of_channel_push(done, record, out@[h].0);
                    assert(before[h].1@ == of_channel(done, before[h].0));
                    assert(out@[h].0 == before[h].0);
                    if h < g {
                        assert(before[h].0 != before[g as int].0);
                    } else if h > g {
                        assert(before[g as int].0 != before[h].0);
                    }
                }
                assert forall|a: int, b: int| 0 <= a < b < out@.len() implies (
                #[trigger] out@[a]).0 != (#[trigger] out@[b]).0 by {
                    assert(before[a].0 != before[b].0);
                }
                assert forall|i: int| 0 <= i < next.len() implies exists|h: int|
                    0 <= h < out@.len() && (#[trigger] out@[h]).0 == (
                    #[trigger] next[i]).channel by {
                    if i < done.len() {
                        assert(next[i] == done[i]);
                        let h = choose|h: int|
                            0 <= h < before.len() && (#[trigger] before[h]).0 == done[i].channel;
                        assert(out@[h].0 == before[h].0);
                    } else {
                        assert(out@[g as int].0 == channel);
                    }
                }
            }
        } else {
            proof {
                assert forall|i: int| 0 <= i < done.len() implies (#[trigger] done[i]).channel
                    != channel by {
                    let h = choose|h: int|
                        0 <= h < before.len() && (#[trigger] before[h]).0 == done[i].channel;
                    assert(before[h].0 != channel);
                }
                lemma_of_channel_none(done, channel);
                lemma_of_channel_push(done, record, channel);
            }
            let name = record.channel;
            let mut fresh: Vec<StoreRecord> = Vec::new();
            fresh.push(record);
            assert(fresh@ =~= of_channel(next, channel));
            out.push((name, fresh));
            proof {
                assert forall|h: int| 0 <= h < out@.len() implies (#[trigger] out@[h]).1@
                    == of_channel(next, out@[h].0) && out@[h].1@.len() > 0 by {
                    if h < before.len() {
                        assert(out@[h] == before[h]);
                        lemma_of_channel_push(done, record, before[h].0);
                    }
                }
                assert forall|a: int, b: int| 0 <= a < b < out@.len() implies (
                #[trigger] out@[a]).0 != (#[trigger] out@[b]).0 by {
                    assert(out@[a] == before[a]);
                    if b < before.len() {
                        assert(out@[b] == before[b]);
                    }
                }
                assert forall|i: int| 0 <= i < next.len() implies exists|h: int|
                    0 <= h < out@.len() && (#[trigger] out@[h]).0 == (
                    #[trigger] next[i]).channel by {
                    if i < done.len() {
                        assert(next[i] == done[i]);
                        let h = choose|h: int|
                            0 <= h < before.len() && (#[trigger] before[h]).0 == done[i].channel;
                        assert(out@[h] == before[h]);
                    } else {
                        assert(out@[before.len() as int].0 == channel);
                    }
                }
            }
        }
        proof {
            done = next;
        }
    }
    assert(all.take(all.len() as int) =~= all);
    out
}

// ---------------------------------------------------------------------------
// Laws
// ---------------------------------------------------------------------------
impl StoreLedger {
    /// The open files once the plan for a write at `at` is carried out: a file
    /// that is due gives way to a new one, and a missing one is opened.
    pub open spec fn prepared(self, channel: Channel, at: int) -> Map<
        (Channel, Seq<char>),
        FileFacts,
    > {
        let id = (channel, partition_of(at));
        if self.files().dom().contains(id) && !self.due(self.files()[id], at) {
            self.files()
        } else {
            self.files().remove(id).insert(id, FileFacts { opened_at: at, bytes: 0, rows: 0 })
        }
    }
}

/// No batch ever goes to a file that is full or has reached its age, and the file
/// it goes to is that of the UTC date of the write. Every other file is left
/// alone. This needs limits above zero: with none, even a new file is due.
pub proof fn law_a_batch_goes_to_a_file_that_is_not_due(
    ledger: StoreLedger,
    channel: Channel,
    at: int,
)
    requires
        ledger.config.max_file_age > 0,
        ledger.config.max_file_bytes > 0,
    ensures
        ({
            let id = (channel, partition_of(at));
            let files = ledger.prepared(channel, at);
            &&& files.dom().contains(id)
            &&& !ledger.due(files[id], at)
            &&& files.remove(id) == ledger.files().remove(id)
        }),
{
    let id = (channel, partition_of(at));
    assert(ledger.prepared(channel, at).remove(id) =~= ledger.files().remove(id));
}

/// Once every file that is due has been given up, none is due: an idle channel
/// never holds a file open past its age.
pub proof fn law_rolling_leaves_nothing_due(before: StoreLedger, after: StoreLedger, now: int)
    requires
        after.config == before.config,
        after.files() == before.files().remove_keys(before.due_set(now)),
    ensures
        after.due_set(now) == Set::<(Channel, Seq<char>)>::empty(),
        forall|id: (Channel, Seq<char>)|
            before.files().dom().contains(id) && !before.too_old(before.files()[id], now)
                ==> #[trigger] after.files().dom().contains(id) && after.files()[id]
                == before.files()[id],
{
    assert(after.due_set(now) =~= Set::<(Channel, Seq<char>)>::empty());
}

/// Rows expected are rows encoded, so a store that writes what it encodes loses
/// none: the two counts stay as far apart as they were.
pub proof fn law_writing_what_was_encoded_loses_nothing(
    channel: Channel,
    session_id: Seq<char>,
    records: Seq<crate::sink::Record>,
    expected: nat,
    written: nat,
)
    ensures
        (expected + encode::row_count(channel, records)) - (written + encode::encoded_rows(
            channel,
            session_id,
            records,
        ).len()) == expected - written,
{
    encode::law_expected_rows_are_encoded(channel, session_id, records);
}

/// A store rolls after 128 mebibytes or five minutes, and writes at most ten thousand
/// rows at a time, below the directory it was given.
pub proof fn law_default_limits_bound_what_a_kill_costs(root: String, out: WriterConfig)
    requires
        call_ensures(WriterConfig::new, (root,), out),
    ensures
        out.root == root,
        out.max_file_bytes == 128 * 1_024 * 1_024,
        out.max_file_age == 5 * 60 * 1_000_000_000,
        out.max_batch_rows == 10_000,
{
}

/// Rows lost are those expected and not written: none exactly where the counts agree, and
/// fewer than none where more were written.
pub proof fn law_rows_lost_are_the_difference(stats: StoreStats, out: i64)
    requires
        call_ensures(StoreStats::rows_lost, (&stats,), out),
        stats.rows_expected <= i64::MAX,
        stats.rows_written <= i64::MAX,
    ensures
        stats.rows_written + out == stats.rows_expected,
{
}

/// A partition is the UTC date of the write, by its whole seconds, as year, month and
/// day.
pub proof fn law_a_partition_is_a_utc_date(at: i128, seconds: int, out: String)
    requires
        call_ensures(partition_key, (at,), out),
        seconds * 1_000_000_000 <= at < (seconds + 1) * 1_000_000_000,
        0 <= clock::utc_date(seconds).0 <= 9_999,
        1 <= clock::utc_date(seconds).1 <= 12,
        1 <= clock::utc_date(seconds).2 <= 31,
    ensures
        out@.len() == 10,
        out@[4] == '-' && out@[7] == '-',
        parse::digits_value(out@.subrange(0, 4)) == clock::utc_date(seconds).0,
        parse::digits_value(out@.subrange(5, 7)) == clock::utc_date(seconds).1,
        parse::digits_value(out@.subrange(8, 10)) == clock::utc_date(seconds).2,
{
    let (year, month, day) = clock::utc_date(seconds);
    clock::law_dates_are_written_year_first(year, month, day);
    clock::law_an_instant_is_seconds_and_nanoseconds(at as int);
    assert(clock::seconds_of(at as int) == seconds);
}

/// The directory of a partition names its date, and a data file its channel, when it was
/// opened and its session, apart by dashes.
pub proof fn law_files_are_named_by_what_they_hold(
    partition: &str,
    dir: String,
    channel: Channel,
    at: i128,
    session_id: &str,
    name: String,
)
    requires
        call_ensures(partition_dir, (partition,), dir),
        call_ensures(data_filename, (channel, at, session_id), name),
    ensures
        dir@.len() == partition@.len() + 5,
        dir@.take(5) == seq!['d', 'a', 't', 'e', '='],
        dir@.skip(5) == partition@,
        ({
            let label = channel.label();
            let stamp = clock::milli_stamp(
                clock::seconds_of(at as int),
                clock::nanos_of(at as int),
            );
            let session_at = label.len() + stamp.len() + 2;
            let end_at = session_at + session_id@.len();
            &&& name@.take(label.len() as int) == label
            &&& name@[label.len() as int] == '-'
            &&& name@.subrange(label.len() as int + 1, session_at - 1) == stamp
            &&& name@[session_at - 1] == '-'
            &&& name@.subrange(session_at as int, end_at as int) == session_id@
            &&& name@.skip(end_at as int) == seq!['.', 'p', 'a', 'r', 'q', 'u', 'e', 't']
        }),
{
    reveal_strlit("date=");
    reveal_strlit(".parquet");
    let label = channel.label();
    let stamp = clock::milli_stamp(clock::seconds_of(at as int), clock::nanos_of(at as int));
    let session_at = label.len() + stamp.len() + 2;
    let end_at = session_at + session_id@.len();
    assert(dir@.take(5) =~= seq!['d', 'a', 't', 'e', '=']);
    assert(dir@.skip(5) =~= partition@);
    assert(name@.take(label.len() as int) =~= label);
    assert(name@.subrange(label.len() as int + 1, session_at - 1) =~= stamp);
    assert(name@.subrange(session_at as int, end_at as int) =~= session_id@);
    assert(name@.skip(end_at as int) =~= seq!['.', 'p', 'a', 'r', 'q', 'u', 'e', 't']);
}

proof fn lemma_absent_file(files: Seq<OpenFile>, channel: Channel, partition: Seq<char>)
    requires
        forall|i: int|
            0 <= i < files.len() ==> !((#[trigger] files[i]).channel == channel
                && files[i].partition_date@ == partition),
    ensures
        !file_map(files).dom().contains((channel, partition)),
{
    if file_map(files).dom().contains((channel, partition)) {
        let i = choose|i: int| is_at(files, (channel, partition), i);
        assert(files[i].channel == channel && files[i].partition_date@ == partition);
    }
}

/// A partition's open file is rolled exactly where it has reached its bytes or its age;
/// a partition without one has nothing to roll.
pub proof fn law_full_and_aged_files_are_rolled(
    ledger: StoreLedger,
    channel: Channel,
    partition: &str,
    at: i128,
    i: int,
    out: bool,
)
    requires
        call_ensures(StoreLedger::should_roll, (&ledger, channel, partition, at), out),
        ledger.wf(),
    ensures
        0 <= i < ledger.open@.len() && ledger.open@[i].channel == channel
            && ledger.open@[i].partition_date@ == partition@ ==> (out <==> ledger.open@[i].bytes
            >= ledger.config.max_file_bytes || at - ledger.open@[i].opened_at
            >= ledger.config.max_file_age),
        (forall|k: int|
            0 <= k < ledger.open@.len() ==> !((#[trigger] ledger.open@[k]).channel == channel
                && ledger.open@[k].partition_date@ == partition@)) ==> !out,
{
    if 0 <= i < ledger.open@.len() && ledger.open@[i].channel == channel
        && ledger.open@[i].partition_date@ == partition@ {
        lemma_file_at(ledger.open@, i);
        assert(ledger.open@[i].id() == (channel, partition@));
    }
    if forall|k: int|
        0 <= k < ledger.open@.len() ==> !((#[trigger] ledger.open@[k]).channel == channel
            && ledger.open@[k].partition_date@ == partition@) {
        lemma_absent_file(ledger.open@, channel, partition@);
    }
}

/// A write goes to the partition of its moment. An open file is closed first exactly
/// where it is full or aged, a new one is made exactly where none is left open, and the
/// session's own file is made with it exactly where the partition lacks one.
pub proof fn law_a_write_is_planned_by_its_file(
    ledger: StoreLedger,
    channel: Channel,
    at: i128,
    partition: Seq<char>,
    i: int,
    out: WritePlan,
)
    requires
        call_ensures(StoreLedger::plan_write, (&ledger, channel, at), out),
        ledger.wf(),
        partition == clock::date_text(clock::utc_date(clock::seconds_of(at as int))),
    ensures
        out.partition@ == partition,
        0 <= i < ledger.open@.len() && ledger.open@[i].channel == channel
            && ledger.open@[i].partition_date@ == partition ==> {
            let aged = ledger.open@[i].bytes >= ledger.config.max_file_bytes || at
                - ledger.open@[i].opened_at >= ledger.config.max_file_age;
            &&& out.close <==> aged
            &&& out.open is Some <==> aged
        },
        (forall|k: int|
            0 <= k < ledger.open@.len() ==> !((#[trigger] ledger.open@[k]).channel == channel
                && ledger.open@[k].partition_date@ == partition)) ==> !out.close
            && out.open is Some,
        out.open matches Some(file) ==> {
            &&& file.sidecar is None <==> exists|k: int|
                0 <= k < ledger.sidecars@.len() && (#[trigger] ledger.sidecars@[k]).channel
                    == channel && ledger.sidecars@[k].partition@ == partition
            &&& file.dir@ == "date="@ + partition
            &&& file.sidecar matches Some(name) ==> name@ == "_session-"@
                + ledger.session.session_id@ + ".json"@
            &&& file.filename@.take(channel.label().len() as int) == channel.label()
        },
{
    let id = (channel, partition);
    if 0 <= i < ledger.open@.len() && ledger.open@[i].channel == channel
        && ledger.open@[i].partition_date@ == partition {
        lemma_file_at(ledger.open@, i);
        assert(ledger.open@[i].id() == id);
    }
    if forall|k: int|
        0 <= k < ledger.open@.len() ==> !((#[trigger] ledger.open@[k]).channel == channel
            && ledger.open@[k].partition_date@ == partition) {
        lemma_absent_file(ledger.open@, channel, partition);
    }
    if let Some(file) = out.open {
        assert(file.filename@.take(channel.label().len() as int) =~= channel.label());
        if ledger.covered().contains(id) {
            let k = choose|k: int|
                0 <= k < ledger.sidecars@.len() && #[trigger] ledger.sidecars@[k]@ == id;
            assert(ledger.sidecars@[k].channel == channel);
        }
        if exists|k: int|
            0 <= k < ledger.sidecars@.len() && (#[trigger] ledger.sidecars@[k]).channel == channel
                && ledger.sidecars@[k].partition@ == partition {
            let k = choose|k: int|
                0 <= k < ledger.sidecars@.len() && (#[trigger] ledger.sidecars@[k]).channel
                    == channel && ledger.sidecars@[k].partition@ == partition;
            assert(ledger.sidecars@[k]@ == id);
        }
    }
}

/// Whether a list names a partition.
pub open spec fn names_file(keys: Seq<FileKey>, file: OpenFile) -> bool {
    exists|k: int|
        0 <= k < keys.len() && (#[trigger] keys[k]).channel == file.channel && keys[k].partition@
            == file.partition_date@
}

/// Every open file is listed as open, and as due exactly where it has reached its age,
/// however little it holds. No list holds anything else, or anything twice.
pub proof fn law_due_files_are_those_of_their_age(
    ledger: StoreLedger,
    now: i128,
    due: Vec<FileKey>,
    open: Vec<FileKey>,
    i: int,
)
    requires
        call_ensures(StoreLedger::due_files, (&ledger, now), due),
        call_ensures(StoreLedger::open_files, (&ledger,), open),
        ledger.wf(),
        0 <= i < ledger.open@.len(),
    ensures
        names_file(due@, ledger.open@[i]) <==> now - ledger.open@[i].opened_at
            >= ledger.config.max_file_age,
        names_file(open@, ledger.open@[i]),
        open@.len() == ledger.open@.len(),
        due@.len() <= open@.len(),
{
    let file = ledger.open@[i];
    lemma_file_at(ledger.open@, i);
    assert(key_set(due@) == ledger.due_set(now as int));
    assert(key_set(open@) == ledger.files().dom());
    lemma_named(due@, file);
    lemma_named(open@, file);
    lemma_fewer_keys(due@, open@);
}

proof fn lemma_named(keys: Seq<FileKey>, file: OpenFile)
    ensures
        names_file(keys, file) <==> key_set(keys).contains(file.id()),
{
    if key_set(keys).contains(file.id()) {
        let k = choose|k: int| 0 <= k < keys.len() && #[trigger] keys[k]@ == file.id();
        assert(keys[k].channel == file.channel);
    }
    if names_file(keys, file) {
        let k = choose|k: int|
            0 <= k < keys.len() && (#[trigger] keys[k]).channel == file.channel
                && keys[k].partition@ == file.partition_date@;
        assert(keys[k]@ == file.id());
    }
}

proof fn lemma_fewer_keys(some: Seq<FileKey>, all: Seq<FileKey>)
    requires
        distinct_keys(some),
        forall|id: (Channel, Seq<char>)| #[trigger]
            key_set(some).contains(id) ==> key_set(all).contains(id),
    ensures
        some.len() <= all.len(),
    decreases some.len(),
{
    if some.len() > 0 {
        let rest = some.drop_last();
        let id = some.last()@;
        assert(some[some.len() - 1]@ == id);
        assert(key_set(some).contains(id));
        let k = choose|k: int| 0 <= k < all.len() && #[trigger] all[k]@ == id;
        let others = all.remove(k);
        assert forall|other: (Channel, Seq<char>)| #[trigger]
            key_set(rest).contains(other) implies key_set(others).contains(other) by {
            let a = choose|a: int| 0 <= a < rest.len() && #[trigger] rest[a]@ == other;
            assert(some[a]@ == other);
            assert(some[a]@ != some[some.len() - 1]@);
            assert(key_set(some).contains(other));
            let b = choose|b: int| 0 <= b < all.len() && #[trigger] all[b]@ == other;
            assert(b != k);
            if b < k {
                assert(others[b]@ == other);
            } else {
                assert(others[b - 1]@ == other);
            }
        }
        lemma_fewer_keys(rest, others);
    }
}

/// The counts that are reported are those that are kept.
pub proof fn law_reported_counts_are_those_kept(ledger: StoreLedger, out: StoreStats)
    requires
        call_ensures(StoreLedger::stats, (&ledger,), out),
    ensures
        out.open_files == ledger.open@.len(),
        out.files_closed == ledger.files_closed,
        out.rows_written == ledger.rows_written,
        out.bytes_written == ledger.bytes_written,
        out.records_dequeued == ledger.records_dequeued,
        out.rows_expected == ledger.rows_expected,
{
}

/// The open files as the ledger speaks of them are its open files: each under its channel
/// and date, with when it was opened and what it holds, and no others.
pub proof fn law_the_files_are_the_open_files(ledger: StoreLedger, i: int)
    requires
        ledger.wf(),
    ensures
        0 <= i < ledger.open@.len() ==> {
            let file = ledger.open@[i];
            let id = (file.channel, file.partition_date@);
            &&& ledger.files().dom().contains(id)
            &&& ledger.files()[id].opened_at == file.opened_at
            &&& ledger.files()[id].bytes == file.bytes
            &&& ledger.files()[id].rows == file.rows
        },
        forall|id: (Channel, Seq<char>)| #[trigger]
            ledger.files().dom().contains(id) ==> exists|k: int|
                0 <= k < ledger.open@.len() && (#[trigger] ledger.open@[k]).channel == id.0
                    && ledger.open@[k].partition_date@ == id.1,
{
    if 0 <= i < ledger.open@.len() {
        lemma_file_at(ledger.open@, i);
    }
    assert forall|id: (Channel, Seq<char>)| #[trigger]
        ledger.files().dom().contains(id) implies exists|k: int|
        0 <= k < ledger.open@.len() && (#[trigger] ledger.open@[k]).channel == id.0
            && ledger.open@[k].partition_date@ == id.1 by {
        let k = choose|k: int| is_at(ledger.open@, id, k);
        assert(ledger.open@[k].id() == id);
    }
}

/// A group holds its own channel's records, each of them, in the order they came.
pub proof fn law_a_group_takes_its_own_channel(
    records: Seq<StoreRecord>,
    record: StoreRecord,
    channel: Channel,
)
    ensures
        of_channel(Seq::empty(), channel) == Seq::<StoreRecord>::empty(),
        record.channel == channel ==> of_channel(records.push(record), channel) == of_channel(
            records,
            channel,
        ).push(record),
        record.channel != channel ==> of_channel(records.push(record), channel) == of_channel(
            records,
            channel,
        ),
{
    lemma_of_channel_push(records, record, channel);
    lemma_of_channel_none(Seq::empty(), channel);
}

proof fn lemma_of_channel_members(records: Seq<StoreRecord>, channel: Channel)
    ensures
        forall|k: int|
            0 <= k < of_channel(records, channel).len() ==> (#[trigger] of_channel(
                records,
                channel,
            )[k]).channel == channel && records.contains(of_channel(records, channel)[k]),
        forall|i: int|
            0 <= i < records.len() && (#[trigger] records[i]).channel == channel ==> of_channel(
                records,
                channel,
            ).contains(records[i]),
    decreases records.len(),
{
    if records.len() == 0 {
        lemma_of_channel_none(records, channel);
    } else {
        let rest = records.drop_last();
        let last = records.last();
        let less = of_channel(rest, channel);
        let all = of_channel(records, channel);
        lemma_of_channel_members(rest, channel);
        lemma_of_channel_push(rest, last, channel);
        assert(rest.push(last) =~= records);
        assert forall|k: int| 0 <= k < all.len() implies (#[trigger] all[k]).channel == channel
            && records.contains(all[k]) by {
            if k < less.len() {
                assert(all[k] == less[k]);
                assert(rest.contains(less[k]));
                let i = choose|i: int| 0 <= i < rest.len() && rest[i] == less[k];
                assert(records[i] == less[k]);
            } else {
                assert(records[records.len() - 1] == all[k]);
            }
        }
        assert forall|i: int| 0 <= i < records.len() && (#[trigger] records[i]).channel
            == channel implies all.contains(records[i]) by {
            if i < rest.len() {
                assert(rest[i] == records[i]);
                assert(less.contains(rest[i]));
                let k = choose|k: int| 0 <= k < less.len() && less[k] == rest[i];
                assert(all[k] == records[i]);
            } else {
                assert(all[all.len() - 1] == records[i]);
            }
        }
    }
}

/// Grouping loses no record and mixes no channels: every record stands in the one group
/// of its channel, and every group holds records of its channel alone.
pub proof fn law_grouping_sorts_by_channel(
    records: Vec<StoreRecord>,
    out: Vec<(Channel, Vec<StoreRecord>)>,
    i: int,
    g: int,
    h: int,
    k: int,
)
    requires
        call_ensures(group_by_channel, (records,), out),
    ensures
        0 <= i < records@.len() ==> exists|at: int|
            0 <= at < out@.len() && (#[trigger] out@[at]).0 == records@[i].channel
                && out@[at].1@.contains(records@[i]),
        0 <= g < out@.len() && 0 <= k < out@[g].1@.len() ==> out@[g].1@[k].channel == out@[g].0
            && records@.contains(out@[g].1@[k]),
        0 <= g < h < out@.len() ==> out@[g].0 != out@[h].0,
        0 <= g < out@.len() ==> out@[g].1@ == of_channel(records@, out@[g].0),
{
    assert(groups_of(records@, out@));
    if 0 <= i < records@.len() {
        let channel = records@[i].channel;
        let at = choose|at: int| 0 <= at < out@.len() && (#[trigger] out@[at]).0 == channel;
        lemma_of_channel_members(records@, channel);
        assert(out@[at].1@ == of_channel(records@, channel));
    }
    if 0 <= g < out@.len() {
        lemma_of_channel_members(records@, out@[g].0);
    }
}

/// Giving up a file takes that file away and leaves every other as it was; opening one
/// adds it, empty, as of its moment; a batch makes its own file larger and touches no
/// other. A session file covers its own partition and uncovers none.
pub proof fn law_operations_touch_only_their_own_file(
    channel: Channel,
    partition: &str,
    name: String,
    at: i128,
    rows: u64,
    bytes: u64,
    other: (Channel, Seq<char>),
)
    requires
        name@ == partition@,
    ensures
        forall|ledger: &mut StoreLedger, out: Option<OpenFile>| #[trigger]
            call_ensures(StoreLedger::begin_close, (ledger, channel, partition), out) ==> {
                &&& !final(ledger).files().dom().contains((channel, partition@))
                &&& out is Some <==> ledger.files().dom().contains((channel, partition@))
                &&& out matches Some(file) ==> ledger.files()[(channel, partition@)].rows
                    == file.rows && ledger.files()[(channel, partition@)].bytes == file.bytes
                &&& other != (channel, partition@) ==> (final(ledger).files().dom().contains(other)
                    <==> ledger.files().dom().contains(other)) && final(ledger).files()[other]
                    == ledger.files()[other]
                &&& *final(ledger) == (StoreLedger { open: final(ledger).open, ..*ledger })
            },
        forall|ledger: &mut StoreLedger| #[trigger]
            call_ensures(StoreLedger::opened, (ledger, channel, name, at), ()) ==> {
                let file = final(ledger).files()[(channel, partition@)];
                &&& final(ledger).files().dom().contains((channel, partition@))
                &&& file.opened_at == at && file.rows == 0 && file.bytes == 0
                &&& other != (channel, partition@) ==> (final(ledger).files().dom().contains(other)
                    <==> ledger.files().dom().contains(other)) && final(ledger).files()[other]
                    == ledger.files()[other]
                &&& *final(ledger) == (StoreLedger { open: final(ledger).open, ..*ledger })
            },
        forall|ledger: &mut StoreLedger| #[trigger]
            call_ensures(StoreLedger::written, (ledger, channel, partition, rows, bytes), ()) ==> {
                let before = ledger.files()[(channel, partition@)];
                let after = final(ledger).files()[(channel, partition@)];
                &&& final(ledger).files().dom() == ledger.files().dom()
                &&& other != (channel, partition@) ==> final(ledger).files()[other]
                    == ledger.files()[other]
                &&& ledger.files().dom().contains((channel, partition@)) ==> after.rows
                    == before.rows + rows && after.bytes == before.bytes + bytes
                    && after.opened_at == before.opened_at
                &&& ledger.files().dom().contains((channel, partition@)) && ledger.rows_written
                    + rows <= u64::MAX ==> final(ledger).rows_written == ledger.rows_written + rows
                &&& ledger.files().dom().contains((channel, partition@)) && ledger.bytes_written
                    + bytes <= u64::MAX ==> final(ledger).bytes_written == ledger.bytes_written
                    + bytes
                &&& !ledger.files().dom().contains((channel, partition@)) ==> *final(ledger)
                    == *ledger
                &&& *final(ledger) == (StoreLedger {
                    open: final(ledger).open,
                    rows_written: final(ledger).rows_written,
                    bytes_written: final(ledger).bytes_written,
                    ..*ledger
                })
            },
        forall|ledger: &mut StoreLedger| #[trigger]
            call_ensures(StoreLedger::sidecar_written, (ledger, channel, name), ()) ==> {
                &&& final(ledger).covered().contains((channel, partition@))
                &&& other != (channel, partition@) ==> (final(ledger).covered().contains(other)
                    <==> ledger.covered().contains(other))
                &&& *final(ledger) == (StoreLedger { sidecars: final(ledger).sidecars, ..*ledger })
            },
{
    assert forall|ledger: &mut StoreLedger| #[trigger]
        call_ensures(
            StoreLedger::written,
            (ledger, channel, partition, rows, bytes),
            (),
        ) implies final(ledger).files().dom() == ledger.files().dom() by {
        assert(final(ledger).files().dom() =~= ledger.files().dom());
    }
}

/// A footer is counted once, records taken off the queue are counted with the rows they
/// should give, and the end of a session is kept in it.
pub proof fn law_operations_count_what_happened(
    channel: Channel,
    records: &[StoreRecord],
    ended_at: i128,
)
    ensures
        forall|ledger: &mut StoreLedger| #[trigger]
            call_ensures(StoreLedger::closed, (ledger,), ()) && ledger.files_closed < u64::MAX ==> {
                &&& final(ledger).files_closed == ledger.files_closed + 1
                &&& *final(ledger) == (StoreLedger {
                    files_closed: final(ledger).files_closed,
                    ..*ledger
                })
            },
        forall|ledger: &mut StoreLedger| #[trigger]
            call_ensures(StoreLedger::dequeued, (ledger, channel, records), ())
                && ledger.records_dequeued + records@.len() <= u64::MAX && ledger.rows_expected
                + encode::row_count(channel, encode::record_views(records@)) <= u64::MAX ==> {
                &&& final(ledger).records_dequeued == ledger.records_dequeued + records@.len()
                &&& final(ledger).rows_expected == ledger.rows_expected + encode::row_count(
                    channel,
                    encode::record_views(records@),
                )
                &&& *final(ledger) == (StoreLedger {
                    records_dequeued: final(ledger).records_dequeued,
                    rows_expected: final(ledger).rows_expected,
                    ..*ledger
                })
            },
        forall|ledger: &mut StoreLedger| #[trigger]
            call_ensures(StoreLedger::end_session, (ledger, ended_at), ()) ==> {
                &&& final(ledger).session.ended_at == Some(ended_at)
                &&& final(ledger).session == (SessionMetadata {
                    ended_at: final(ledger).session.ended_at,
                    ..ledger.session
                })
                &&& *final(ledger) == (StoreLedger { session: final(ledger).session, ..*ledger })
            },
{
}

/// A store starts with its session, no files and nothing counted.
pub proof fn law_a_store_starts_empty(
    config: WriterConfig,
    session: SessionMetadata,
    out: StoreLedger,
)
    requires
        call_ensures(StoreLedger::open, (config, session), out),
    ensures
        out.session == session && out.config == config,
        out.files().dom().len() == 0 && out.covered().len() == 0,
        out.files_closed == 0 && out.rows_written == 0 && out.bytes_written == 0,
        out.records_dequeued == 0 && out.rows_expected == 0,
{
}

} // verus!
