use vstd::prelude::*;

use crate::path::{has_file_name, lemma_rollover_paths_distinct, rollover_path, rollover_path_of, DatasetPath};

verus! {

/// Largest number of row groups written to one physical columnar file before the
/// writer rolls over to a new one (the format allows at most `i16::MAX`).
pub const PARQUET_MAX_ROW_GROUPS: usize = 32765;

/// Configuration of the row-group oriented writer.
pub struct ParquetTableWriterConfig {
    /// Automatically flushes the builder when its length (in rows) reaches this
    /// value; `None` means 90% of the target row-group size.
    pub autoflush_row_group_len: Option<usize>,
    /// Automatically flushes the builder when its size (in bytes) reaches this
    /// value; `None` disables flushing on size.
    pub autoflush_buffer_size: Option<usize>,
}

impl Default for ParquetTableWriterConfig {
    fn default() -> (r: Self)
        ensures
            r.autoflush_row_group_len is None,
            r.autoflush_buffer_size is None,
    {
        ParquetTableWriterConfig { autoflush_row_group_len: None, autoflush_buffer_size: None }
    }
}

impl Clone for ParquetTableWriterConfig {
    fn clone(&self) -> (r: Self)
        ensures
            r == *self,
    {
        ParquetTableWriterConfig {
            autoflush_row_group_len: self.autoflush_row_group_len,
            autoflush_buffer_size: self.autoflush_buffer_size,
        }
    }
}

/// 90% of the target row-group size, rounded down.
pub open spec fn default_row_group_len(max_row_group_size: nat) -> nat {
    max_row_group_size * 9 / 10
}

/// The row-count threshold used when none is configured: 90% of the target
/// row-group size, which leaves headroom for rows added between two checks.
pub fn default_autoflush_row_group_len(max_row_group_size: usize) -> (r: usize)
    ensures
        r == default_row_group_len(max_row_group_size as nat),
{
    let q = max_row_group_size / 10;
    let m = max_row_group_size % 10;
    assert(q * 9 + m * 9 / 10 == max_row_group_size * 9 / 10) by (nonlinear_arith)
        requires
            q == max_row_group_size / 10,
            m == max_row_group_size % 10,
    {
        assert(max_row_group_size == 10 * q + m);
        assert(max_row_group_size * 9 == 10 * (9 * q) + m * 9);
    }
    assert(q * 9 <= max_row_group_size) by (nonlinear_arith)
        requires
            q == max_row_group_size / 10,
    {}
    q * 9 + m * 9 / 10
}

/// The two thresholds that trigger an automatic flush.
#[derive(Clone, Copy, PartialEq, Eq, Debug)]
pub struct AutoFlush {
    /// Flush when the buffered row count reaches this value.
    pub row_group_len: usize,
    /// Flush when the buffered byte size reaches this value, if set.
    pub buffer_size: Option<usize>,
}

impl AutoFlush {
    /// Whether a builder holding `rows` rows in `bytes` bytes must be flushed
    /// before it is handed out.
    pub open spec fn triggers(self, rows: nat, bytes: nat) -> bool {
        rows >= self.row_group_len || (self.buffer_size matches Some(b) && bytes >= b)
    }

    /// The thresholds of a row-group writer, given its configuration and the
    /// target row-group size of the format.
    pub fn from_config(config: &ParquetTableWriterConfig, max_row_group_size: usize) -> (r: AutoFlush)
        ensures
            r.row_group_len == match config.autoflush_row_group_len {
                Some(n) => n as nat,
                None => default_row_group_len(max_row_group_size as nat),
            },
            r.buffer_size == config.autoflush_buffer_size,
    {
        let row_group_len = match config.autoflush_row_group_len {
            Some(n) => n,
            None => default_autoflush_row_group_len(max_row_group_size),
        };
        AutoFlush { row_group_len, buffer_size: config.autoflush_buffer_size }
    }

    /// Rows in the builder handed out when it is requested holding `rows` rows in
    /// `bytes` bytes: one flush empties it when a threshold is reached.
    pub open spec fn rows_handed_out(self, rows: nat, bytes: nat) -> nat {
        if self.triggers(rows, bytes) {
            0
        } else {
            rows
        }
    }

    /// Decides whether to flush once before handing out the builder.
    pub fn should_flush(&self, rows: usize, bytes: usize) -> (r: bool)
        ensures
            r == self.triggers(rows as nat, bytes as nat),
    {
        if rows >= self.row_group_len {
            true
        } else {
            match self.buffer_size {
                Some(b) => bytes >= b,
                None => false,
            }
        }
    }
}

/// Rows held by a sequence of files, each given as `(rows, row groups)`; also
/// the rows of a sequence of flushes given as `(rows, row groups added)`.
pub open spec fn sum_rows(files: Seq<(nat, nat)>) -> nat
    decreases files.len(),
{
    if files.len() == 0 {
        0
    } else {
        sum_rows(files.drop_last()) + files.last().0
    }
}

/// Row groups held by a sequence of files, each given as `(rows, row groups)`;
/// also the row groups added by a sequence of flushes.
pub open spec fn sum_groups(files: Seq<(nat, nat)>) -> nat
    decreases files.len(),
{
    if files.len() == 0 {
        0
    } else {
        sum_groups(files.drop_last()) + files.last().1
    }
}

/// The files after `rows` rows were written to the last (open) one in `added`
/// new row groups.
pub open spec fn append_step(files: Seq<(nat, nat)>, rows: nat, added: nat) -> Seq<(nat, nat)> {
    files.update(files.len() - 1, (files.last().0 + rows, files.last().1 + added))
}

/// The files after one flush of `rows` rows in `added` row groups: a file that
/// reaches `max_row_groups` groups is followed by a new, empty one.
pub open spec fn flush_step(files: Seq<(nat, nat)>, max_row_groups: nat, rows: nat, added: nat) -> Seq<(nat, nat)> {
    let written = append_step(files, rows, added);
    if written.last().1 >= max_row_groups {
        written.push((0, 0))
    } else {
        written
    }
}

/// The files of a writer, as `(rows, row groups)`, after the given flushes,
/// each given as `(rows, row groups added)`, starting from one empty file.
pub open spec fn flush_all(max_row_groups: nat, flushes: Seq<(nat, nat)>) -> Seq<(nat, nat)>
    decreases flushes.len(),
{
    if flushes.len() == 0 {
        seq![(0nat, 0nat)]
    } else {
        flush_step(flush_all(max_row_groups, flushes.drop_last()), max_row_groups, flushes.last().0, flushes.last().1)
    }
}

/// What a `RolloverState` stands for.
pub struct RolloverModel {
    /// Path of the first physical file, before its extension is set.
    pub base_path: (bool, Seq<Seq<char>>),
    /// Extension of every physical file.
    pub extension: Seq<char>,
    /// Row groups after which a physical file is full.
    pub max_row_groups: nat,
    /// Physical files already closed.
    pub num_written_files: nat,
    /// Row groups in the open physical file.
    pub row_groups_in_file: nat,
    /// Rows in the open physical file.
    pub rows_in_file: nat,
    /// Rows written over all physical files.
    pub rows_written: nat,
    /// Whether the writer was closed.
    pub closed: bool,
    /// Every physical file as `(rows, row groups)`, the open or last one last.
    pub files: Seq<(nat, nat)>,
    /// Every flush before the closing one, as `(rows, row groups added)`.
    pub flushes: Seq<(nat, nat)>,
}

/// The file and row-group bookkeeping of one logical row-group writer: which
/// physical file is open, how many row groups it holds, and when to roll over.
pub struct RolloverState {
    base_path: DatasetPath,
    extension: String,
    max_row_groups: usize,
    num_written_files: u64,
    row_groups_in_file: usize,
    rows_in_file: u64,
    rows_written: u64,
    closed: bool,
    files: Ghost<Seq<(nat, nat)>>,
    flushes: Ghost<Seq<(nat, nat)>>,
}

impl View for RolloverState {
    type V = RolloverModel;

    closed spec fn view(&self) -> RolloverModel {
        RolloverModel {
            base_path: self.base_path@,
            extension: self.extension@,
            max_row_groups: self.max_row_groups as nat,
            num_written_files: self.num_written_files as nat,
            row_groups_in_file: self.row_groups_in_file as nat,
            rows_in_file: self.rows_in_file as nat,
            rows_written: self.rows_written as nat,
            closed: self.closed,
            files: self.files@,
            flushes: self.flushes@,
        }
    }
}

impl RolloverState {
    /// The invariant of the bookkeeping.
    pub open spec fn wf(&self) -> bool {
        let m = self@;
        &&& m.max_row_groups > 0
        &&& m.max_row_groups <= usize::MAX
        &&& m.rows_written <= u64::MAX
        &&& m.num_written_files <= u64::MAX
        &&& m.files.len() == m.num_written_files + 1
        &&& m.files.last() == (m.rows_in_file, m.row_groups_in_file)
        &&& sum_rows(m.files) == m.rows_written
        &&& m.rows_in_file <= m.rows_written
        &&& forall|f: int| 0 <= f < m.files.len() - 1 ==> #[trigger] m.files[f].1 >= m.max_row_groups
        &&& !m.closed ==> {
            &&& m.files == flush_all(m.max_row_groups, m.flushes)
            &&& m.row_groups_in_file < m.max_row_groups
        }
    }

    /// Path of the physical file that is open.
    pub open spec fn current_path_spec(&self) -> (bool, Seq<Seq<char>>) {
        rollover_path_of(self@.base_path, self@.num_written_files, self@.extension)
    }

    /// Whether the open file still has to be finalized when the writer is discarded.
    pub open spec fn finalize_pending(&self) -> bool {
        !self@.closed
    }

    /// State of a writer whose first physical file is about to be created.
    pub fn new(base_path: DatasetPath, extension: String, max_row_groups: usize) -> (r: RolloverState)
        requires
            max_row_groups > 0,
        ensures
            r.wf(),
            r@.base_path == base_path@,
            r@.extension == extension@,
            r@.max_row_groups == max_row_groups,
            r@.num_written_files == 0,
            r@.row_groups_in_file == 0,
            r@.rows_in_file == 0,
            r@.rows_written == 0,
            !r@.closed,
            r@.flushes == Seq::<(nat, nat)>::empty(),
            r@.files == seq![(0nat, 0nat)],
    {
        let ghost files: Seq<(nat, nat)> = seq![(0nat, 0nat)];
        let ghost flushes: Seq<(nat, nat)> = Seq::empty();
        let r = RolloverState {
            base_path,
            extension,
            max_row_groups,
            num_written_files: 0,
            row_groups_in_file: 0,
            rows_in_file: 0,
            rows_written: 0,
            closed: false,
            files: Ghost(files),
            flushes: Ghost(flushes),
        };
        proof {
            lemma_initial_totals();
        }
        r
    }

    /// Path of the physical file that is open: the base path for the first file,
    /// with suffix `_k` for the `k`-th after it.
    pub fn current_path(&self) -> (r: DatasetPath)
        ensures
            r@ == self.current_path_spec(),
    {
        rollover_path(&self.base_path, self.num_written_files, self.extension.as_str())
    }

    /// Physical files already closed.
    pub fn num_written_files(&self) -> (r: u64)
        ensures
            r == self@.num_written_files,
    {
        self.num_written_files
    }

    /// Row groups in the open physical file.
    pub fn row_groups_in_file(&self) -> (r: usize)
        ensures
            r == self@.row_groups_in_file,
    {
        self.row_groups_in_file
    }

    /// Rows in the open physical file.
    pub fn rows_in_file(&self) -> (r: u64)
        ensures
            r == self@.rows_in_file,
    {
        self.rows_in_file
    }

    /// Rows written over all physical files.
    pub fn rows_written(&self) -> (r: u64)
        ensures
            r == self@.rows_written,
    {
        self.rows_written
    }

    /// Records a flush that wrote `rows` rows to the open file, after which that
    /// file holds `groups_in_file` row groups, as the sink reports. Returns `true`
    /// when the file has reached the row-group cap: the caller then closes it
    /// and opens `current_path()`.
    pub fn record_flush(&mut self, rows: usize, groups_in_file: usize) -> (rolled: bool)
        requires
            old(self).wf(),
            !old(self)@.closed,
            groups_in_file >= old(self)@.row_groups_in_file,
            old(self)@.rows_written + rows <= u64::MAX,
            old(self)@.num_written_files < u64::MAX,
        ensures
            final(self).wf(),
            final(self)@.base_path == old(self)@.base_path,
            final(self)@.extension == old(self)@.extension,
            final(self)@.max_row_groups == old(self)@.max_row_groups,
            !final(self)@.closed,
            final(self)@.rows_written == old(self)@.rows_written + rows,
            final(self)@.flushes == old(self)@.flushes.push(
                (rows as nat, (groups_in_file - old(self)@.row_groups_in_file) as nat),
            ),
            final(self)@.files == flush_step(
                old(self)@.files,
                old(self)@.max_row_groups,
                rows as nat,
                (groups_in_file - old(self)@.row_groups_in_file) as nat,
            ),
            rolled == (groups_in_file >= old(self)@.max_row_groups),
            rolled ==> {
                &&& final(self)@.num_written_files == old(self)@.num_written_files + 1
                &&& final(self)@.row_groups_in_file == 0
                &&& final(self)@.rows_in_file == 0
            },
            !rolled ==> {
                &&& final(self)@.num_written_files == old(self)@.num_written_files
                &&& final(self)@.row_groups_in_file == groups_in_file
                &&& final(self)@.rows_in_file == old(self)@.rows_in_file + rows
            },
    {
        let ghost old_files = self.files@;
        let ghost added: nat = (groups_in_file - self.row_groups_in_file) as nat;
        let ghost written = append_step(old_files, rows as nat, added);
        let ghost flushes = self.flushes@.push((rows as nat, added));
        proof {
            lemma_append_rows(old_files, rows as nat, added);
            assert(flushes.drop_last() =~= self.flushes@);
            assert forall|f: int| 0 <= f < written.len() - 1 implies #[trigger] written[f].1 >= self.max_row_groups by {
                assert(written[f] == old_files[f]);
            }
        }
        self.flushes = Ghost(flushes);
        self.rows_written = self.rows_written + rows as u64;
        if groups_in_file >= self.max_row_groups {
            let ghost next = written.push((0nat, 0nat));
            proof {
                assert(next.drop_last() =~= written);
                assert forall|f: int| 0 <= f < next.len() - 1 implies #[trigger] next[f].1 >= self.max_row_groups by {
                    assert(next[f] == written[f]);
                }
            }
            self.files = Ghost(next);
            self.num_written_files = self.num_written_files + 1;
            self.row_groups_in_file = 0;
            self.rows_in_file = 0;
            true
        } else {
            self.files = Ghost(written);
            self.row_groups_in_file = groups_in_file;
            self.rows_in_file = self.rows_in_file + rows as u64;
            false
        }
    }

    /// Records the closing flush, which wrote `rows` rows to the open file,
    /// after which it holds `groups_in_file` row groups, and marks the writer
    /// closed. The file is finalized as it is: no new file follows it.
    pub fn record_close(&mut self, rows: usize, groups_in_file: usize)
        requires
            old(self).wf(),
            !old(self)@.closed,
            groups_in_file >= old(self)@.row_groups_in_file,
            old(self)@.rows_written + rows <= u64::MAX,
        ensures
            final(self).wf(),
            final(self)@.closed,
            final(self)@.base_path == old(self)@.base_path,
            final(self)@.extension == old(self)@.extension,
            final(self)@.max_row_groups == old(self)@.max_row_groups,
            final(self)@.flushes == old(self)@.flushes,
            final(self)@.rows_written == old(self)@.rows_written + rows,
            final(self)@.files == append_step(
                old(self)@.files,
                rows as nat,
                (groups_in_file - old(self)@.row_groups_in_file) as nat,
            ),
            final(self)@.num_written_files == old(self)@.num_written_files,
            final(self)@.row_groups_in_file == groups_in_file,
            final(self)@.rows_in_file == old(self)@.rows_in_file + rows,
    {
        let ghost old_files = self.files@;
        let ghost added: nat = (groups_in_file - self.row_groups_in_file) as nat;
        let ghost written = append_step(old_files, rows as nat, added);
        proof {
            lemma_append_rows(old_files, rows as nat, added);
            assert forall|f: int| 0 <= f < written.len() - 1 implies #[trigger] written[f].1 >= self.max_row_groups by {
                assert(written[f] == old_files[f]);
            }
        }
        self.files = Ghost(written);
        self.rows_written = self.rows_written + rows as u64;
        self.row_groups_in_file = groups_in_file;
        self.rows_in_file = self.rows_in_file + rows as u64;
        self.closed = true;
    }

    /// Whether the open file still has to be finalized when the writer is
    /// discarded: only when it was not closed explicitly.
    pub fn needs_finalize(&self) -> (r: bool)
        ensures
            r == self.finalize_pending(),
    {
        !self.closed
    }
}

proof fn lemma_append_rows(files: Seq<(nat, nat)>, rows: nat, added: nat)
    requires
        files.len() > 0,
    ensures
        append_step(files, rows, added).len() == files.len(),
        append_step(files, rows, added).drop_last() == files.drop_last(),
        sum_rows(append_step(files, rows, added)) == sum_rows(files) + rows,
        sum_groups(append_step(files, rows, added)) == sum_groups(files) + added,
{
    let u = append_step(files, rows, added);
    assert(u.drop_last() =~= files.drop_last());
}

proof fn lemma_flush_step_totals(files: Seq<(nat, nat)>, max_row_groups: nat, rows: nat, added: nat)
    requires
        files.len() > 0,
    ensures
        flush_step(files, max_row_groups, rows, added).len() > 0,
        sum_rows(flush_step(files, max_row_groups, rows, added)) == sum_rows(files) + rows,
        sum_groups(flush_step(files, max_row_groups, rows, added)) == sum_groups(files) + added,
{
    let written = append_step(files, rows, added);
    lemma_append_rows(files, rows, added);
    let next = written.push((0nat, 0nat));
    assert(next.drop_last() =~= written);
}

proof fn lemma_initial_totals()
    ensures
        sum_rows(seq![(0nat, 0nat)]) == 0,
        sum_groups(seq![(0nat, 0nat)]) == 0,
{
    let init = seq![(0nat, 0nat)];
    assert(init.drop_last() =~= Seq::<(nat, nat)>::empty());
    assert(init.last() == (0nat, 0nat));
    assert(sum_rows(Seq::<(nat, nat)>::empty()) == 0);
    assert(sum_groups(Seq::<(nat, nat)>::empty()) == 0);
}

/// Row conservation: whatever flushes a writer makes, and however many
/// physical files it rolls over to, the files together hold exactly the rows
/// of all the flushes.
pub proof fn lemma_rows_conserved(max_row_groups: nat, flushes: Seq<(nat, nat)>)
    ensures
        flush_all(max_row_groups, flushes).len() > 0,
        sum_rows(flush_all(max_row_groups, flushes)) == sum_rows(flushes),
        sum_groups(flush_all(max_row_groups, flushes)) == sum_groups(flushes),
    decreases flushes.len(),
{
    if flushes.len() == 0 {
        lemma_initial_totals();
    } else {
        lemma_rows_conserved(max_row_groups, flushes.drop_last());
        lemma_flush_step_totals(
            flush_all(max_row_groups, flushes.drop_last()),
            max_row_groups,
            flushes.last().0,
            flushes.last().1,
        );
    }
}

/// Row conservation of a writer: while it is open, its files hold exactly the
/// rows of the flushes it recorded; once closed, they hold every row it wrote,
/// the closing flush included.
pub proof fn lemma_writer_rows_conserved(s: RolloverState)
    requires
        s.wf(),
    ensures
        sum_rows(s@.files) == s@.rows_written,
        !s@.closed ==> sum_rows(s@.files) == sum_rows(s@.flushes),
{
    lemma_rows_conserved(s@.max_row_groups, s@.flushes);
}

/// Whether each flush added exactly one row group.
pub open spec fn one_group_each(flushes: Seq<(nat, nat)>) -> bool {
    forall|i: int| 0 <= i < flushes.len() ==> #[trigger] flushes[i].1 == 1
}

/// Rollover: `n` flushes of one row group each into a writer whose files hold
/// `max_row_groups` row groups leave `n / max_row_groups` full files followed
/// by one open file holding the remaining `n % max_row_groups` groups; the row
/// groups of all files together are the `n` flushes.
pub proof fn lemma_rollover(max_row_groups: nat, flushes: Seq<(nat, nat)>)
    requires
        max_row_groups > 0,
        one_group_each(flushes),
    ensures
        flush_all(max_row_groups, flushes).len() == flushes.len() / max_row_groups + 1,
        flush_all(max_row_groups, flushes).last().1 == flushes.len() % max_row_groups,
        forall|f: int| 0 <= f < flushes.len() / max_row_groups ==>
            #[trigger] flush_all(max_row_groups, flushes)[f].1 == max_row_groups,
        sum_groups(flush_all(max_row_groups, flushes)) == flushes.len(),
    decreases flushes.len(),
{
    let n = flushes.len();
    if n == 0 {
        lemma_initial_totals();
        assert(0nat / max_row_groups == 0) by (nonlinear_arith) requires max_row_groups > 0 {}
        assert(0nat % max_row_groups == 0) by (nonlinear_arith) requires max_row_groups > 0 {}
    } else {
        let prev_flushes = flushes.drop_last();
        assert forall|i: int| 0 <= i < prev_flushes.len() implies #[trigger] prev_flushes[i].1 == 1 by {
            assert(prev_flushes[i] == flushes[i]);
        }
        lemma_rollover(max_row_groups, prev_flushes);
        lemma_rows_conserved(max_row_groups, flushes);
        lemma_rows_conserved(max_row_groups, prev_flushes);
        let prev = flush_all(max_row_groups, prev_flushes);
        let e = flushes.last();
        assert(e.1 == 1);
        lemma_flush_step_totals(prev, max_row_groups, e.0, e.1);
        let m = (n - 1) as nat;
        let q = m / max_row_groups;
        let r = m % max_row_groups;
        vstd::arithmetic::div_mod::lemma_fundamental_div_mod(m as int, max_row_groups as int);
        assert(r < max_row_groups) by (nonlinear_arith) requires r == m % max_row_groups, max_row_groups > 0 {}
        let written = append_step(prev, e.0, e.1);
        lemma_append_rows(prev, e.0, e.1);
        if r + 1 >= max_row_groups {
            assert(n == (q + 1) * max_row_groups) by (nonlinear_arith)
                requires m == max_row_groups * q + r, r + 1 == max_row_groups, n == m + 1 {}
            vstd::arithmetic::div_mod::lemma_fundamental_div_mod_converse(
                n as int, max_row_groups as int, (q + 1) as int, 0);
            let next = written.push((0nat, 0nat));
            assert(flush_all(max_row_groups, flushes) == next);
            assert forall|f: int| 0 <= f < n / max_row_groups implies
                #[trigger] flush_all(max_row_groups, flushes)[f].1 == max_row_groups by {
                if f < q {
                    assert(next[f] == prev[f]);
                } else {
                    assert(next[f] == written[f]);
                }
            }
        } else {
            assert(n == q * max_row_groups + (r + 1)) by (nonlinear_arith)
                requires m == max_row_groups * q + r, n == m + 1 {}
            vstd::arithmetic::div_mod::lemma_fundamental_div_mod_converse(
                n as int, max_row_groups as int, q as int, (r + 1) as int);
            assert(flush_all(max_row_groups, flushes) == written);
            assert forall|f: int| 0 <= f < n / max_row_groups implies
                #[trigger] flush_all(max_row_groups, flushes)[f].1 == max_row_groups by {
                assert(written[f] == prev[f]);
            }
        }
    }
}

/// Rollover of a writer: while it is open, after flushes of one row group each
/// it has closed `n / cap` full files and holds `n % cap` row groups in the
/// open one; its files hold exactly its `n` row groups, and the open file's
/// path differs from the path of every file closed before it.
pub proof fn lemma_writer_rollover(s: RolloverState)
    requires
        s.wf(),
        !s@.closed,
        one_group_each(s@.flushes),
        has_file_name(s@.base_path),
    ensures
        s@.num_written_files == s@.flushes.len() / s@.max_row_groups,
        s@.row_groups_in_file == s@.flushes.len() % s@.max_row_groups,
        sum_groups(s@.files) == s@.flushes.len(),
        forall|f: int| 0 <= f < s@.num_written_files ==> #[trigger] s@.files[f].1 == s@.max_row_groups,
        forall|k: nat| k < s@.num_written_files ==>
            #[trigger] rollover_path_of(s@.base_path, k, s@.extension) != s.current_path_spec(),
{
    lemma_rollover(s@.max_row_groups, s@.flushes);
    assert forall|k: nat| k < s@.num_written_files implies
        #[trigger] rollover_path_of(s@.base_path, k, s@.extension) != s.current_path_spec() by {
        lemma_rollover_paths_distinct(s@.base_path, s@.extension, k, s@.num_written_files);
    }
}

/// Threshold: a builder holding exactly the configured row count `R > 0` is
/// flushed once when it is next requested, and the builder then handed out,
/// emptied by that flush, holds fewer than `R` rows.
pub proof fn lemma_threshold(af: AutoFlush, bytes: nat)
    requires
        af.row_group_len > 0,
    ensures
        af.triggers(af.row_group_len as nat, bytes),
        af.rows_handed_out(af.row_group_len as nat, bytes) == 0,
        af.rows_handed_out(af.row_group_len as nat, bytes) < af.row_group_len,
{
}

/// Close-once: a writer that was closed explicitly has nothing left to finalize
/// when it is discarded.
pub proof fn lemma_close_once(s: RolloverState)
    requires
        s@.closed,
    ensures
        !s.finalize_pending(),
{
}

} // verus!
