use vstd::prelude::*;

verus! {

/// The decimal digits of `n`, most significant first, with no leading zero.
pub open spec fn decimal(n: nat) -> Seq<char>
    decreases n,
{
    if n < 10 {
        seq![digit_char(n)]
    } else {
        decimal(n / 10) + seq![digit_char(n % 10)]
    }
}

/// The character of a single decimal digit.
pub open spec fn digit_char(d: nat) -> char {
    if d == 0 { '0' }
    else if d == 1 { '1' }
    else if d == 2 { '2' }
    else if d == 3 { '3' }
    else if d == 4 { '4' }
    else if d == 5 { '5' }
    else if d == 6 { '6' }
    else if d == 7 { '7' }
    else if d == 8 { '8' }
    else { '9' }
}

fn digit_str(d: u64) -> (r: &'static str)
    requires
        d < 10,
    ensures
        r@ == seq![digit_char(d as nat)],
{
    proof { reveal_strlit("0"); reveal_strlit("1"); reveal_strlit("2"); reveal_strlit("3");
        reveal_strlit("4"); reveal_strlit("5"); reveal_strlit("6"); reveal_strlit("7");
        reveal_strlit("8"); reveal_strlit("9"); }
    if d == 0 { "0" }
    else if d == 1 { "1" }
    else if d == 2 { "2" }
    else if d == 3 { "3" }
    else if d == 4 { "4" }
    else if d == 5 { "5" }
    else if d == 6 { "6" }
    else if d == 7 { "7" }
    else if d == 8 { "8" }
    else { "9" }
}

/// Renders `n` in decimal, as `u64::to_string` does.
pub fn decimal_string(n: u64) -> (r: String)
    ensures
        r@ == decimal(n as nat),
    decreases n,
{
    if n < 10 {
        String::from_str(digit_str(n))
    } else {
        let mut s = decimal_string(n / 10);
        s.append(digit_str(n % 10));
        s
    }
}


/// Index of the last `'.'` in `s`, or -1 if there is none.
pub open spec fn last_dot(s: Seq<char>) -> int
    decreases s.len(),
{
    if s.len() == 0 {
        -1
    } else if s.last() == '.' {
        s.len() - 1
    } else {
        last_dot(s.drop_last())
    }
}

/// The file stem of a file name: everything before the last `'.'`, unless that
/// dot is the first character or there is none, in which case the whole name.
pub open spec fn file_stem(name: Seq<char>) -> Seq<char> {
    if last_dot(name) > 0 {
        name.subrange(0, last_dot(name))
    } else {
        name
    }
}

/// Whether a path component names no file: the empty name, `.` and `..`.
pub open spec fn is_special_name(name: Seq<char>) -> bool {
    name.len() == 0 || name == seq!['.'] || name == seq!['.', '.']
}

/// `name` followed by `.ext`, or `name` alone if `ext` is empty.
pub open spec fn add_extension(name: Seq<char>, ext: Seq<char>) -> Seq<char> {
    if ext.len() == 0 {
        name
    } else {
        name + seq!['.'] + ext
    }
}

/// A file name with its extension replaced by `ext` (dropped if `ext` is empty).
pub open spec fn with_extension(name: Seq<char>, ext: Seq<char>) -> Seq<char> {
    add_extension(file_stem(name), ext)
}

/// Name of the `k`-th physical file of a logical writer whose first file is
/// `base`, with extension `ext`: `stem.ext` for the first one, `stem_k.ext`
/// after it, where `stem` is `base` without its extension.
pub open spec fn rollover_name(base: Seq<char>, k: nat, ext: Seq<char>) -> Seq<char> {
    if k == 0 {
        add_extension(file_stem(base), ext)
    } else {
        add_extension(file_stem(base) + seq!['_'] + decimal(k), ext)
    }
}

/// Name of a Hive partition directory: `column=value`.
pub open spec fn partition_dir_name(column: Seq<char>, value: Seq<char>) -> Seq<char> {
    column + seq!['='] + value
}

proof fn lemma_last_dot_bounds(s: Seq<char>)
    ensures
        -1 <= last_dot(s) < s.len(),
        last_dot(s) >= 0 ==> s[last_dot(s)] == '.',
        forall|j: int| last_dot(s) < j < s.len() ==> s[j] != '.',
    decreases s.len(),
{
    if s.len() > 0 && s.last() != '.' {
        lemma_last_dot_bounds(s.drop_last());
        assert forall|j: int| last_dot(s) < j < s.len() implies s[j] != '.' by {
            if j < s.len() - 1 {
                assert(s.drop_last()[j] == s[j]);
            }
        }
    }
}

proof fn lemma_last_dot_char(s: Seq<char>, i: int)
    requires
        0 <= i < s.len(),
        s[i] == '.',
        forall|j: int| i < j < s.len() ==> s[j] != '.',
    ensures
        last_dot(s) == i,
    decreases s.len(),
{
    if i < s.len() - 1 {
        assert(s.last() != '.');
        assert forall|j: int| i < j < s.drop_last().len() implies s.drop_last()[j] != '.' by {
            assert(s.drop_last()[j] == s[j]);
        }
        lemma_last_dot_char(s.drop_last(), i);
    }
}

proof fn lemma_no_dot(s: Seq<char>)
    requires
        forall|j: int| 0 <= j < s.len() ==> s[j] != '.',
    ensures
        last_dot(s) == -1,
    decreases s.len(),
{
    if s.len() > 0 {
        assert forall|j: int| 0 <= j < s.drop_last().len() implies s.drop_last()[j] != '.' by {
            assert(s.drop_last()[j] == s[j]);
        }
        lemma_no_dot(s.drop_last());
    }
}

/// Finds the last `'.'` of `name`, scanning from its end.
fn find_last_dot(name: &str) -> (r: Option<usize>)
    ensures
        r is None ==> last_dot(name@) == -1,
        r matches Some(i) ==> last_dot(name@) == i,
{
    let len = name.unicode_len();
    let mut i: usize = len;
    while i > 0
        invariant
            i <= len == name@.len(),
            forall|j: int| i <= j < len ==> name@[j] != '.',
        decreases i,
    {
        let c = name.get_char(i - 1);
        if c == '.' {
            proof { lemma_last_dot_char(name@, i - 1); }
            return Some(i - 1);
        }
        i = i - 1;
    }
    proof { lemma_no_dot(name@); }
    None
}

/// The file stem of `name`: `name` without its extension.
fn stem_of(name: &str) -> (r: String)
    ensures
        r@ == file_stem(name@),
{
    proof { lemma_last_dot_bounds(name@); }
    match find_last_dot(name) {
        Some(i) if i > 0 => String::from_str(name.substring_char(0, i)),
        _ => String::from_str(name),
    }
}

/// Appends `.ext` to `r`, unless `ext` is empty.
fn push_extension(r: &mut String, ext: &str)
    ensures
        final(r)@ == add_extension(old(r)@, ext@),
{
    if ext.unicode_len() > 0 {
        proof { reveal_strlit("."); }
        r.append(".");
        r.append(ext);
    }
}

/// Replaces the extension of the file name `name` by `ext`, with the rules of
/// `Path::set_extension` for a name that is neither empty, `.` nor `..`.
pub fn replace_extension(name: &str, ext: &str) -> (r: String)
    ensures
        r@ == with_extension(name@, ext@),
{
    let mut r = stem_of(name);
    push_extension(&mut r, ext);
    r
}

/// Whether `name` names a file: it is neither empty, `.` nor `..`.
pub fn is_file_name(name: &str) -> (r: bool)
    ensures
        r == !is_special_name(name@),
{
    let n = name.unicode_len();
    if n == 0 {
        false
    } else if n == 1 {
        let c = name.get_char(0);
        assert(c == '.' ==> name@ =~= seq!['.']);
        c != '.'
    } else if n == 2 {
        let c0 = name.get_char(0);
        let c1 = name.get_char(1);
        assert(c0 == '.' && c1 == '.' ==> name@ =~= seq!['.', '.']);
        !(c0 == '.' && c1 == '.')
    } else {
        true
    }
}

/// The name of the `k`-th physical file of a logical writer whose first file is
/// named `base`: the stem of `base`, then `_k` when `k > 0`, then `.ext`.
pub fn rollover_file_name(base: &str, k: u64, ext: &str) -> (r: String)
    ensures
        r@ == rollover_name(base@, k as nat, ext@),
{
    let mut r = stem_of(base);
    if k > 0 {
        proof { reveal_strlit("_"); }
        r.append("_");
        let digits = decimal_string(k);
        r.append(digits.as_str());
    }
    push_extension(&mut r, ext);
    r
}

/// The name `column=value` of a Hive partition directory.
pub fn partition_dir(column: &str, value: &str) -> (r: String)
    ensures
        r@ == partition_dir_name(column@, value@),
{
    let mut r = String::from_str(column);
    proof { reveal_strlit("="); }
    r.append("=");
    r.append(value);
    r
}

proof fn lemma_digit_injective(x: nat, y: nat)
    requires
        x < 10,
        y < 10,
        digit_char(x) == digit_char(y),
    ensures
        x == y,
{
}

proof fn lemma_decimal_len(n: nat)
    ensures
        decimal(n).len() >= 1,
        n >= 10 ==> decimal(n).len() >= 2,
    decreases n,
{
    if n >= 10 {
        lemma_decimal_len(n / 10);
    }
}

/// Distinct numbers have distinct decimal renderings.
pub proof fn lemma_decimal_injective(a: nat, b: nat)
    requires
        decimal(a) == decimal(b),
    ensures
        a == b,
    decreases a,
{
    lemma_decimal_len(a);
    lemma_decimal_len(b);
    let da = decimal(a);
    let db = decimal(b);
    if a >= 10 && b >= 10 {
        assert(da.last() == db.last());
        assert(da.drop_last() =~= decimal(a / 10));
        assert(db.drop_last() =~= decimal(b / 10));
        lemma_decimal_injective(a / 10, b / 10);
        lemma_digit_injective(a % 10, b % 10);
    } else if a < 10 && b < 10 {
        assert(da[0] == db[0]);
        lemma_digit_injective(a, b);
    }
}

proof fn lemma_add_extension_injective(x: Seq<char>, y: Seq<char>, ext: Seq<char>)
    requires
        add_extension(x, ext) == add_extension(y, ext),
    ensures
        x == y,
{
    if ext.len() > 0 {
        let n = add_extension(x, ext);
        assert(x =~= n.subrange(0, x.len() as int));
        assert(y =~= n.subrange(0, y.len() as int));
    }
}

/// Distinct positions in a writer's sequence of physical files get distinct
/// file names.
pub proof fn lemma_rollover_names_distinct(base: Seq<char>, ext: Seq<char>, j: nat, k: nat)
    requires
        j != k,
    ensures
        rollover_name(base, j, ext) != rollover_name(base, k, ext),
{
    let stem = file_stem(base);
    let mid_j = if j == 0 { stem } else { stem + seq!['_'] + decimal(j) };
    let mid_k = if k == 0 { stem } else { stem + seq!['_'] + decimal(k) };
    if rollover_name(base, j, ext) == rollover_name(base, k, ext) {
        lemma_add_extension_injective(mid_j, mid_k, ext);
        lemma_decimal_len(j);
        lemma_decimal_len(k);
        if j > 0 && k > 0 {
            assert(decimal(j) =~= mid_j.subrange(stem.len() as int + 1, mid_j.len() as int));
            assert(decimal(k) =~= mid_k.subrange(stem.len() as int + 1, mid_k.len() as int));
            lemma_decimal_injective(j, k);
        }
    }
}

/// The second physical file of a logical writer is named after the stem of the
/// first, with `_1` before the extension.
pub proof fn lemma_second_file_name(base: Seq<char>, ext: Seq<char>)
    ensures
        rollover_name(base, 1, ext) == add_extension(file_stem(base) + seq!['_', '1'], ext),
{
    assert(decimal(1) == seq!['1']);
    assert(file_stem(base) + seq!['_'] + decimal(1) =~= file_stem(base) + seq!['_', '1']);
}

} // verus!
