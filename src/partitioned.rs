use vstd::prelude::*;

use crate::naming::{decimal, decimal_string};
use crate::path::{has_file_name, joined, partition_file_of, partition_file_path, DatasetPath};

verus! {

/// Why a partitioned writer could not be built.
#[derive(Debug, PartialEq, Eq)]
pub enum PartitionError<E> {
    /// The path given ends in no file name (it is empty or ends in `.` or `..`),
    /// so it names no parent directory to hold the partitions.
    RootPath,
    /// Building the writer of one partition failed.
    Writer(E),
}

/// Number of buckets of a bucket-partitioned writer: one when partitioning is disabled.
pub open spec fn bucket_count(num_partitions: Option<u16>) -> nat {
    match num_partitions {
        Some(n) => n as nat,
        None => 1,
    }
}

/// Path of the file of bucket `i`: `<dir>/<column>=<i>/<file>`, or `<dir>/<file>`
/// when partitioning is disabled.
pub open spec fn bucket_file_path(
    dir: (bool, Seq<Seq<char>>),
    column: Seq<char>,
    num_partitions: Option<u16>,
    file: Seq<char>,
    i: nat,
) -> (bool, Seq<Seq<char>>) {
    match num_partitions {
        Some(_) => partition_file_of(dir, column, decimal(i), file),
        None => joined(dir, file),
    }
}

/// The parent directory of a path.
pub open spec fn parent_of(p: (bool, Seq<Seq<char>>)) -> (bool, Seq<Seq<char>>) {
    (p.0, p.1.drop_last())
}

/// Whether `make`, called on a path whose view is `target`, may have returned `r`.
pub open spec fn made_at<W, E, F: FnOnce(DatasetPath) -> Result<W, E>>(
    make: F,
    target: (bool, Seq<Seq<char>>),
    r: Result<W, E>,
) -> bool {
    exists|p: DatasetPath| p@ == target && #[trigger] call_ensures(make, (p,), r)
}

/// Holds one writer per bucket of a fixed set of numbered partitions, the writer
/// of bucket `i` writing to `<dir>/<column>=<i>/<file>` instead of `<dir>/<file>`.
pub struct U16PartitionedTableWriter<W> {
    partition_writers: Vec<W>,
}

impl<W> U16PartitionedTableWriter<W> {
    /// The writers of the buckets, in bucket order.
    pub closed spec fn writers(&self) -> Seq<W> {
        self.partition_writers@
    }

    /// Builds the writer of every bucket of `path`'s parent directory, in bucket
    /// order, by calling `make` with the path of its file (whose name is the last
    /// component of `path`); stops at the first writer that cannot be built.
    pub fn new<E, F>(path: DatasetPath, partition_column: String, num_partitions: Option<u16>, make: F) -> (r: Result<Self, PartitionError<E>>)
        where
            F: Fn(DatasetPath) -> Result<W, E>,
        requires
            num_partitions != Some(0u16),
            forall|p: DatasetPath| call_requires(make, (p,)),
        ensures
            !has_file_name(path@) <==> r matches Err(PartitionError::RootPath),
            r matches Ok(w) ==> {
                &&& w.writers().len() == bucket_count(num_partitions)
                &&& forall|i: int| 0 <= i < w.writers().len() ==> made_at(
                    make,
                    bucket_file_path(parent_of(path@), partition_column@, num_partitions, path@.1.last(), i as nat),
                    Ok(#[trigger] w.writers()[i]),
                )
            },
            r matches Err(PartitionError::Writer(e)) ==> exists|i: int|
                0 <= i < bucket_count(num_partitions) && made_at(
                    make,
                    #[trigger] bucket_file_path(parent_of(path@), partition_column@, num_partitions, path@.1.last(), i as nat),
                    Err(e),
                ),
    {
        let (dir, file) = match path.split_file_name() {
            None => return Err(PartitionError::RootPath),
            Some(parts) => parts,
        };
        let n: u16 = match num_partitions {
            Some(n) => n,
            None => 1,
        };
        let mut partition_writers: Vec<W> = Vec::new();
        let mut i: u16 = 0;
        while i < n
            invariant
                n as nat == bucket_count(num_partitions),
                i <= n,
                dir@ == parent_of(path@),
                file@ == path@.1.last(),
                has_file_name(path@),
                forall|p: DatasetPath| call_requires(make, (p,)),
                partition_writers@.len() == i,
                forall|j: int| 0 <= j < i ==> made_at(
                    make,
                    bucket_file_path(parent_of(path@), partition_column@, num_partitions, path@.1.last(), j as nat),
                    Ok(#[trigger] partition_writers@[j]),
                ),
            decreases n - i,
        {
            let p = match num_partitions {
                Some(_) => {
                    let value = decimal_string(i as u64);
                    partition_file_path(&dir, partition_column.as_str(), value.as_str(), &file)
                },
                None => dir.join(file.clone()),
            };
            let ghost gp = p;
            let ghost k: int = i as int;
            let ghost target = bucket_file_path(parent_of(path@), partition_column@, num_partitions, path@.1.last(), k as nat);
            assert(gp@ == target);
            let ghost before = partition_writers@;
            match make(p) {
                Ok(w) => {
                    partition_writers.push(w);
                    assert(made_at(make, target, Ok(partition_writers@[k])));
                    assert forall|j: int| 0 <= j < k + 1 implies made_at(
                        make,
                        bucket_file_path(parent_of(path@), partition_column@, num_partitions, path@.1.last(), j as nat),
                        Ok(#[trigger] partition_writers@[j]),
                    ) by {
                        if j < k {
                            assert(partition_writers@[j] == before[j]);
                        }
                    }
                },
                Err(e) => {
                    assert(made_at(make, target, Err(e)));
                    return Err(PartitionError::Writer(e));
                },
            }
            i = i + 1;
        }
        let r = U16PartitionedTableWriter { partition_writers };
        assert(r.writers() == partition_writers@);
        Ok(r)
    }

    /// The writers of the buckets, in bucket order.
    pub fn partitions(&mut self) -> (r: &mut [W])
        ensures
            r@ == old(self).writers(),
            final(self).writers() == final(r)@,
    {
        self.partition_writers.as_mut_slice()
    }

    /// Gives up the writers of the buckets, in bucket order, to close them.
    pub fn into_partitions(self) -> (r: Vec<W>)
        ensures
            r@ == self.writers(),
    {
        self.partition_writers
    }
}

/// The partition keys after one writes under `key`: unchanged when `key` is
/// already known, else extended with it.
pub open spec fn keys_after(keys: Seq<Seq<char>>, key: Seq<char>) -> Seq<Seq<char>> {
    if keys.contains(key) {
        keys
    } else {
        keys.push(key)
    }
}

/// Holds one writer per value of a string partition column, created on first use,
/// the writer of value `v` writing to `<dir>/<column>=<v>/<file>`.
pub struct Utf8PartitionedTableWriter<W, S, C> {
    path: DatasetPath,
    partition_column: String,
    schema: S,
    config: C,
    thread_id: String,
    keys: Vec<String>,
    partition_writers: Vec<W>,
}

impl<W, S, C> Utf8PartitionedTableWriter<W, S, C> {
    /// The directory holding the partition directories.
    pub closed spec fn dir(&self) -> (bool, Seq<Seq<char>>) {
        self.path@
    }

    /// The name of the partition column.
    pub closed spec fn column(&self) -> Seq<char> {
        self.partition_column@
    }

    /// The file name used inside every partition directory.
    pub closed spec fn file_name(&self) -> Seq<char> {
        self.thread_id@
    }

    /// The schema handed to each new partition writer.
    pub closed spec fn schema_spec(&self) -> S {
        self.schema
    }

    /// The configuration handed to each new partition writer.
    pub closed spec fn config_spec(&self) -> C {
        self.config
    }

    /// The keys of the partitions created so far, in order of creation.
    pub closed spec fn keys(&self) -> Seq<Seq<char>> {
        self.keys.deep_view()
    }

    /// The writers of the partitions, in the order of `keys()`.
    pub closed spec fn writers(&self) -> Seq<W> {
        self.partition_writers@
    }

    /// One writer per key, and no key twice.
    pub open spec fn wf(&self) -> bool {
        &&& self.keys().len() == self.writers().len()
        &&& forall|i: int, j: int| 0 <= i < j < self.keys().len() ==> self.keys()[i] != self.keys()[j]
    }

    /// Path of the file of the partition with key `key`.
    pub open spec fn partition_path_spec(&self, key: Seq<char>) -> (bool, Seq<Seq<char>>) {
        partition_file_of(self.dir(), self.column(), key, self.file_name())
    }

    /// A writer with no partition yet, whose partitions go to `path`'s parent
    /// directory under the file name that ends `path`; `None` when `path` ends
    /// in no file name.
    pub fn new(path: DatasetPath, partition_column: String, schema: S, config: C) -> (r: Option<Self>)
        ensures
            !has_file_name(path@) <==> r is None,
            r matches Some(w) ==> {
                &&& w.wf()
                &&& w.dir() == parent_of(path@)
                &&& w.file_name() == path@.1.last()
                &&& w.column() == partition_column@
                &&& w.schema_spec() == schema
                &&& w.config_spec() == config
                &&& w.keys().len() == 0
            },
    {
        match path.split_file_name() {
            None => None,
            Some((dir, thread_id)) => {
                let keys: Vec<String> = Vec::new();
                let partition_writers: Vec<W> = Vec::new();
                let r = Utf8PartitionedTableWriter {
                    path: dir,
                    partition_column,
                    schema,
                    config,
                    thread_id,
                    keys,
                    partition_writers,
                };
                assert(r.keys() =~= Seq::<Seq<char>>::empty());
                Some(r)
            },
        }
    }

    /// The schema handed to each new partition writer.
    pub fn schema(&self) -> (r: &S)
        ensures
            *r == self.schema_spec(),
    {
        &self.schema
    }

    /// The configuration handed to each new partition writer.
    pub fn config(&self) -> (r: &C)
        ensures
            *r == self.config_spec(),
    {
        &self.config
    }

    /// Position of `key` among the keys of the partitions created so far.
    pub fn find(&self, key: &String) -> (r: Option<usize>)
        ensures
            r is None <==> !self.keys().contains(key@),
            r matches Some(i) ==> i < self.keys().len() && self.keys()[i as int] == key@,
    {
        let mut i: usize = 0;
        while i < self.keys.len()
            invariant
                i <= self.keys@.len(),
                self.keys().len() == self.keys@.len(),
                forall|j: int| 0 <= j < i ==> self.keys()[j] != key@,
            decreases self.keys@.len() - i,
        {
            if self.keys[i] == *key {
                assert(self.keys()[i as int] == key@);
                return Some(i);
            }
            i = i + 1;
        }
        None
    }

    /// The keys of the partitions created so far, in order of creation.
    pub fn partition_keys(&self) -> (r: &Vec<String>)
        ensures
            r.deep_view() == self.keys(),
    {
        &self.keys
    }

    /// The writers of the partitions, in the order of `partition_keys()`.
    pub fn partitions(&mut self) -> (r: &mut [W])
        ensures
            r@ == old(self).writers(),
            final(self).writers() == final(r)@,
            final(self).keys() == old(self).keys(),
            final(self).dir() == old(self).dir(),
            final(self).column() == old(self).column(),
            final(self).file_name() == old(self).file_name(),
            final(self).schema_spec() == old(self).schema_spec(),
            final(self).config_spec() == old(self).config_spec(),
    {
        self.partition_writers.as_mut_slice()
    }

    /// Gives up the writers of the partitions, in the order of `partition_keys()`,
    /// to close them.
    pub fn into_partitions(self) -> (r: Vec<W>)
        ensures
            r@ == self.writers(),
    {
        self.partition_writers
    }

    /// The writer of partition `key`. The first time a key is seen, `make` is
    /// called with the path of that partition's file to build its writer, which
    /// is kept; later calls with an equal key return that same writer.
    pub fn partition<E, F>(&mut self, key: String, make: F) -> (r: Result<&mut W, E>)
        where
            F: FnOnce(DatasetPath) -> Result<W, E>,
        requires
            old(self).wf(),
            forall|p: DatasetPath| call_requires(make, (p,)),
        ensures
            final(self).wf(),
            final(self).dir() == old(self).dir(),
            final(self).column() == old(self).column(),
            final(self).file_name() == old(self).file_name(),
            final(self).schema_spec() == old(self).schema_spec(),
            final(self).config_spec() == old(self).config_spec(),
            old(self).keys().contains(key@) ==> forall|i: int|
                0 <= i < old(self).keys().len() && old(self).keys()[i] == key@ ==> {
                    &&& r matches Ok(w)
                    &&& *w == old(self).writers()[i]
                    &&& final(self).keys() == old(self).keys()
                    &&& final(self).writers() == old(self).writers().update(i, *final(w))
                },
            !old(self).keys().contains(key@) ==> match r {
                Ok(w) => {
                    &&& made_at(make, old(self).partition_path_spec(key@), Ok(*w))
                    &&& final(self).keys() == keys_after(old(self).keys(), key@)
                    &&& final(self).writers() == old(self).writers().push(*final(w))
                },
                Err(e) => {
                    &&& made_at(make, old(self).partition_path_spec(key@), Err(e))
                    &&& final(self).keys() == old(self).keys()
                    &&& final(self).writers() == old(self).writers()
                },
            },
    {
        match self.find(&key) {
            Some(i) => {
                Ok(&mut self.partition_writers[i])
            },
            None => {
                let p = partition_file_path(&self.path, self.partition_column.as_str(), key.as_str(), &self.thread_id);
                let ghost gp = p;
                match make(p) {
                    Ok(w) => {
                        let ghost old_keys = self.keys();
                        self.keys.push(key);
                        self.partition_writers.push(w);
                        assert(self.keys() =~= old_keys.push(key@));
                        let n = self.partition_writers.len() - 1;
                        Ok(&mut self.partition_writers[n])
                    },
                    Err(e) => Err(e),
                }
            },
        }
    }
}

/// Partition routing: writing under a key makes it known, and writing again under
/// an equal key adds no partition, so the same partition writer is used again.
pub proof fn lemma_same_key_reuses_partition(keys: Seq<Seq<char>>, key: Seq<char>)
    ensures
        keys_after(keys, key).contains(key),
        keys_after(keys_after(keys, key), key) == keys_after(keys, key),
{
    if !keys.contains(key) {
        assert(keys.push(key)[keys.len() as int] == key);
    }
}

} // verus!
