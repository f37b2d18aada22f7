use vstd::prelude::*;

use crate::naming::{
    decimal, decimal_string, is_file_name, is_special_name, lemma_decimal_injective,
    lemma_rollover_names_distinct, partition_dir, partition_dir_name, replace_extension,
    rollover_file_name, rollover_name, with_extension,
};

verus! {

/// A filesystem path as a root flag and a list of file names, one per component.
#[derive(Debug, PartialEq, Eq)]
pub struct DatasetPath {
    /// Whether the path starts at the filesystem root.
    pub absolute: bool,
    /// The names of the components, outermost first.
    pub components: Vec<String>,
}

impl View for DatasetPath {
    type V = (bool, Seq<Seq<char>>);

    open spec fn view(&self) -> (bool, Seq<Seq<char>>) {
        (self.absolute, self.components.deep_view())
    }
}

/// Whether `p` ends in a file name: it has a last component, which is neither
/// empty, `.` nor `..`.
pub open spec fn has_file_name(p: (bool, Seq<Seq<char>>)) -> bool {
    p.1.len() > 0 && !is_special_name(p.1.last())
}

/// `p` with `name` appended as its last component.
pub open spec fn joined(p: (bool, Seq<Seq<char>>), name: Seq<char>) -> (bool, Seq<Seq<char>>) {
    (p.0, p.1.push(name))
}

/// `p` with its last component replaced by `name` (unchanged if it has none).
pub open spec fn with_file_name(p: (bool, Seq<Seq<char>>), name: Seq<char>) -> (bool, Seq<Seq<char>>) {
    if p.1.len() == 0 {
        p
    } else {
        (p.0, p.1.update(p.1.len() - 1, name))
    }
}

/// `p` with the extension of its file name replaced by `ext` (unchanged if it
/// has no file name).
pub open spec fn with_path_extension(p: (bool, Seq<Seq<char>>), ext: Seq<char>) -> (bool, Seq<Seq<char>>) {
    if !has_file_name(p) {
        p
    } else {
        with_file_name(p, with_extension(p.1.last(), ext))
    }
}

/// Path of the table with sequence number `seq` in the dataset directory `dir`.
pub open spec fn table_path_of(dir: (bool, Seq<Seq<char>>), seq: nat) -> (bool, Seq<Seq<char>>) {
    joined(dir, decimal(seq))
}

/// Path of the `k`-th physical file of a logical writer whose base path is `base`,
/// with extension `ext` (unchanged if `base` has no file name).
pub open spec fn rollover_path_of(base: (bool, Seq<Seq<char>>), k: nat, ext: Seq<char>) -> (bool, Seq<Seq<char>>) {
    if !has_file_name(base) {
        base
    } else {
        with_file_name(base, rollover_name(base.1.last(), k, ext))
    }
}

/// Path of a file named `file` inside partition `value` of `column` under `dir`.
pub open spec fn partition_file_of(
    dir: (bool, Seq<Seq<char>>),
    column: Seq<char>,
    value: Seq<char>,
    file: Seq<char>,
) -> (bool, Seq<Seq<char>>) {
    joined(joined(dir, partition_dir_name(column, value)), file)
}

impl Clone for DatasetPath {
    fn clone(&self) -> (r: Self)
        ensures
            r@ == self@,
    {
        let mut components: Vec<String> = Vec::new();
        let mut i: usize = 0;
        while i < self.components.len()
            invariant
                i <= self.components.len(),
                components@.len() == i,
                forall|k: int| 0 <= k < i ==> components@[k]@ == self.components@[k]@,
            decreases self.components.len() - i,
        {
            let c = self.components[i].clone();
            components.push(c);
            i = i + 1;
        }
        assert(components.deep_view() =~= self.components.deep_view());
        DatasetPath { absolute: self.absolute, components }
    }
}

impl DatasetPath {
    /// This path with `name` appended as its last component.
    pub fn join(&self, name: String) -> (r: DatasetPath)
        ensures
            r@ == joined(self@, name@),
    {
        let mut r = self.clone();
        r.components.push(name);
        r
    }

    /// The file name ending this path, if it has one: not when it has no
    /// component, nor when its last component is empty, `.` or `..`.
    pub fn file_name(&self) -> (r: Option<&String>)
        ensures
            !has_file_name(self@) <==> r is None,
            r matches Some(f) ==> f@ == self@.1.last(),
    {
        if self.components.len() == 0 {
            None
        } else {
            let last = &self.components[self.components.len() - 1];
            if is_file_name(last.as_str()) {
                Some(last)
            } else {
                None
            }
        }
    }

    /// Splits this path into its parent directory and its file name; `None`
    /// when it has no file name.
    pub fn split_file_name(&self) -> (r: Option<(DatasetPath, String)>)
        ensures
            !has_file_name(self@) <==> r is None,
            r matches Some((dir, name)) ==> {
                &&& dir@ == (self@.0, self@.1.drop_last())
                &&& name@ == self@.1.last()
            },
    {
        if self.file_name().is_none() {
            return None;
        }
        let mut dir = self.clone();
        match dir.components.pop() {
            None => None,
            Some(name) => {
                assert(dir.components.deep_view() =~= self@.1.drop_last());
                Some((dir, name))
            },
        }
    }

    /// This path with the extension of its file name replaced by `ext`, as
    /// `PathBuf::set_extension` does; unchanged when it has no file name.
    pub fn with_extension(&self, ext: &str) -> (r: DatasetPath)
        ensures
            r@ == with_path_extension(self@, ext@),
    {
        match self.split_file_name() {
            None => self.clone(),
            Some((dir, name)) => {
                let r = dir.join(replace_extension(name.as_str(), ext));
                assert(r@.1 =~= with_path_extension(self@, ext@).1);
                r
            },
        }
    }
}

/// The path `<dir>/<seq>` of the table that gets sequence number `seq`.
pub fn table_path(dir: &DatasetPath, seq: u64) -> (r: DatasetPath)
    ensures
        r@ == table_path_of(dir@, seq as nat),
{
    dir.join(decimal_string(seq))
}

/// The path of the `k`-th physical file of a logical writer whose base path is
/// `base`: `stem.ext` for the first, `stem_k.ext` after it, where `stem` is the
/// file name of `base` without its extension.
pub fn rollover_path(base: &DatasetPath, k: u64, ext: &str) -> (r: DatasetPath)
    ensures
        r@ == rollover_path_of(base@, k as nat, ext@),
{
    match base.split_file_name() {
        None => base.clone(),
        Some((dir, name)) => {
            let r = dir.join(rollover_file_name(name.as_str(), k, ext));
            assert(r@.1 =~= rollover_path_of(base@, k as nat, ext@).1);
            r
        },
    }
}

/// The path `<dir>/<column>=<value>/<file>`.
pub fn partition_file_path(dir: &DatasetPath, column: &str, value: &str, file: &String) -> (r: DatasetPath)
    ensures
        r@ == partition_file_of(dir@, column@, value@, file@),
{
    dir.join(partition_dir(column, value)).join(file.clone())
}

/// Tables that get distinct sequence numbers in one dataset directory are
/// written to distinct files.
pub proof fn lemma_distinct_tables(dir: (bool, Seq<Seq<char>>), a: nat, b: nat)
    requires
        a != b,
    ensures
        table_path_of(dir, a) != table_path_of(dir, b),
{
    if table_path_of(dir, a) == table_path_of(dir, b) {
        assert(table_path_of(dir, a).1.last() == decimal(a));
        assert(table_path_of(dir, b).1.last() == decimal(b));
        lemma_decimal_injective(a, b);
    }
}

/// The physical files of one logical writer all have distinct paths.
pub proof fn lemma_rollover_paths_distinct(base: (bool, Seq<Seq<char>>), ext: Seq<char>, j: nat, k: nat)
    requires
        has_file_name(base),
        j != k,
    ensures
        rollover_path_of(base, j, ext) != rollover_path_of(base, k, ext),
        rollover_path_of(base, j, ext).1.drop_last() == base.1.drop_last(),
{
    lemma_rollover_names_distinct(base.1.last(), ext, j, k);
    let pj = rollover_path_of(base, j, ext);
    let pk = rollover_path_of(base, k, ext);
    assert(pj.1.last() == rollover_name(base.1.last(), j, ext));
    assert(pk.1.last() == rollover_name(base.1.last(), k, ext));
    assert(pj.1.drop_last() =~= base.1.drop_last());
}

} // verus!
