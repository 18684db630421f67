//! The GameDataList merge on a plain model of its tables: which changelog
//! entry edits which row, which rows are added or dropped, and which rows
//! several mods added; the order of a table's rows by hash; and the save
//! file sizes of the merged list. A table is seen by the hashes of its
//! rows and what the sizes read of them; the rows themselves are the host
//! program's.

use vstd::prelude::*;

use crate::text::{chars_of, ends_with, has_suffix_lit, is_lit, push_signed, push_str, signed_text, str_eq};

verus! {

/// What a changelog entry of a table does to the row with its hash.
#[derive(Debug, Clone, Copy, PartialEq, Eq, Structural)]
pub enum RowChange {
    /// The row goes.
    Remove,
    /// The row is edited, or added; `Some` hash is the one the added row
    /// carries under the table's width.
    Edit(Option<u64>),
}

/// What a merge does with a changelog entry.
#[derive(Debug, Clone, Copy, PartialEq, Eq, Structural)]
pub enum RowStep {
    /// Merge entry `.1` into the row at `.0`.
    Merge(usize, usize),
    /// Add entry `.0` as a new row at the end.
    Append(usize),
}

/// A row a changelog added; later changelogs that edit it are merged into
/// it at the end, as (changelog, entry) pairs.
pub struct AddedRow {
    pub table: String,
    pub hash: u64,
    pub is_struct: bool,
    pub changes: Vec<(usize, usize)>,
}

/// What a merge has seen so far: the rows changelogs added, and the rows
/// to drop at the end.
pub struct RowBook {
    pub added: Vec<AddedRow>,
    pub dropped: Vec<(String, u64)>,
}

pub type AddedView = (Seq<char>, u64, bool, Seq<(usize, usize)>);

pub open spec fn added_view(a: Seq<AddedRow>) -> Seq<AddedView> {
    a.map_values(|r: AddedRow| (r.table@, r.hash, r.is_struct, r.changes@))
}

pub open spec fn dropped_view(d: Seq<(String, u64)>) -> Seq<(Seq<char>, u64)> {
    d.map_values(|p: (String, u64)| (p.0@, p.1))
}

/// Where the first element equal to `x` stands, or -1.
pub open spec fn index_in<T>(s: Seq<T>, x: T) -> int
    decreases s.len(),
{
    if s.len() == 0 {
        -1
    } else if s[0] == x {
        0
    } else {
        let r = index_in(s.skip(1), x);
        if r < 0 {
            -1
        } else {
            r + 1
        }
    }
}

proof fn lemma_index_in<T>(s: Seq<T>, x: T, j: int)
    requires
        0 <= j <= s.len(),
        forall|i: int| 0 <= i < j ==> #[trigger] s[i] != x,
        j < s.len() ==> s[j] == x,
    ensures
        index_in(s, x) == (if j < s.len() {
            j
        } else {
            -1
        }),
    decreases j,
{
    if j > 0 {
        assert forall|i: int| 0 <= i < j - 1 implies #[trigger] s.skip(1)[i] != x by {
            assert(s.skip(1)[i] == s[i + 1]);
        }
        if j < s.len() {
            assert(s.skip(1)[j - 1] == s[j]);
        }
        lemma_index_in(s.skip(1), x, j - 1);
    }
}

/// The set of dropped rows with `k` in it.
pub open spec fn with_dropped(d: Seq<(Seq<char>, u64)>, k: (Seq<char>, u64)) -> Seq<(Seq<char>, u64)> {
    if index_in(d, k) < 0 {
        d.push(k)
    } else {
        d
    }
}

/// The set of dropped rows without `k`.
pub open spec fn without_dropped(d: Seq<(Seq<char>, u64)>, k: (Seq<char>, u64)) -> Seq<(Seq<char>, u64)> {
    let p = index_in(d, k);
    if p < 0 {
        d
    } else {
        d.remove(p)
    }
}

/// Where the added row of table `t` with hash `h` stands, or -1.
pub open spec fn added_at(a: Seq<AddedView>, t: Seq<char>, h: u64) -> int
    decreases a.len(),
{
    if a.len() == 0 {
        -1
    } else if a[0].0 == t && a[0].1 == h {
        0
    } else {
        let r = added_at(a.skip(1), t, h);
        if r < 0 {
            -1
        } else {
            r + 1
        }
    }
}

proof fn lemma_added_at(a: Seq<AddedView>, t: Seq<char>, h: u64, j: int)
    requires
        0 <= j <= a.len(),
        forall|i: int| 0 <= i < j ==> !(#[trigger] a[i].0 == t && a[i].1 == h),
        j < a.len() ==> a[j].0 == t && a[j].1 == h,
    ensures
        added_at(a, t, h) == (if j < a.len() {
            j
        } else {
            -1
        }),
    decreases j,
{
    if j > 0 {
        assert forall|i: int| 0 <= i < j - 1 implies !(#[trigger] a.skip(1)[i].0 == t && a.skip(1)[i].1 == h) by {
            assert(a.skip(1)[i] == a[i + 1]);
        }
        if j < a.len() {
            assert(a.skip(1)[j - 1] == a[j]);
        }
        lemma_added_at(a.skip(1), t, h, j - 1);
    }
}

/// The bookkeeping of one table's part of a changelog, row by row (the
/// first `n` rows): `(taken entries, added rows, dropped rows, steps)`.
pub open spec fn rows_walked(
    table: Seq<char>,
    rows: Seq<Option<u64>>,
    entries: Seq<(u64, RowChange)>,
    c: usize,
    added: Seq<AddedView>,
    dropped: Seq<(Seq<char>, u64)>,
    n: int,
) -> (Seq<bool>, Seq<AddedView>, Seq<(Seq<char>, u64)>, Seq<RowStep>)
    decreases n,
{
    if n <= 0 {
        (Seq::new(entries.len(), |j: int| false), added, dropped, Seq::empty())
    } else {
        let (taken, a, d, steps) = rows_walked(table, rows, entries, c, added, dropped, n - 1);
        match rows[n - 1] {
            None => (taken, a, d, steps),
            Some(h) => {
                let j = index_in(entries.map_values(|e: (u64, RowChange)| e.0), h);
                if j < 0 || taken[j] {
                    (taken, a, d, steps)
                } else {
                    let t = taken.update(j, true);
                    match entries[j].1 {
                        RowChange::Remove => (t, a, with_dropped(d, (table, h)), steps),
                        RowChange::Edit(_) => {
                            let d2 = without_dropped(d, (table, h));
                            let p = added_at(a, table, h);
                            if p >= 0 {
                                (t, a.update(p, (a[p].0, a[p].1, a[p].2, a[p].3.push((c, j as usize)))), d2, steps)
                            } else {
                                (t, a, d2, steps.push(RowStep::Merge((n - 1) as usize, j as usize)))
                            }
                        },
                    }
                }
            },
        }
    }
}

/// The entries no row took and that add a row, from the first `n`: the
/// rows they add (by hash), the added rows recorded, and the steps.
pub open spec fn leftovers(
    table: Seq<char>,
    is_struct: bool,
    entries: Seq<(u64, RowChange)>,
    taken: Seq<bool>,
    rows: Seq<Option<u64>>,
    added: Seq<AddedView>,
    steps: Seq<RowStep>,
    n: int,
) -> (Seq<Option<u64>>, Seq<AddedView>, Seq<RowStep>)
    decreases n,
{
    if n <= 0 {
        (rows, added, steps)
    } else {
        let (r, a, s) = leftovers(table, is_struct, entries, taken, rows, added, steps, n - 1);
        let j = n - 1;
        if taken[j] {
            (r, a, s)
        } else {
            match entries[j].1 {
                RowChange::Remove => (r, a, s),
                RowChange::Edit(row_hash) => (
                    r.push(row_hash),
                    a.push((table, entries[j].0, is_struct, Seq::empty())),
                    s.push(RowStep::Append(j as usize)),
                ),
            }
        }
    }
}

fn hash_position(entries: &Vec<(u64, RowChange)>, h: u64) -> (r: Option<usize>)
    ensures
        match r {
            Some(j) => j < entries@.len() && j as int == index_in(entries@.map_values(|e: (u64, RowChange)| e.0), h),
            None => index_in(entries@.map_values(|e: (u64, RowChange)| e.0), h) == -1,
        },
{
    let ghost hs = entries@.map_values(|e: (u64, RowChange)| e.0);
    let mut j: usize = 0;
    while j < entries.len()
        invariant
            j <= entries.len(),
            hs == entries@.map_values(|e: (u64, RowChange)| e.0),
            forall|k: int| 0 <= k < j ==> #[trigger] hs[k] != h,
        decreases entries.len() - j,
    {
        if entries[j].0 == h {
            proof {
                lemma_index_in(hs, h, j as int);
            }
            return Some(j);
        }
        j = j + 1;
    }
    proof {
        lemma_index_in(hs, h, j as int);
    }
    None
}

fn dropped_position(dropped: &Vec<(String, u64)>, table: &str, h: u64) -> (r: Option<usize>)
    ensures
        match r {
            Some(j) => j < dropped@.len() && j as int == index_in(dropped_view(dropped@), (table@, h)),
            None => index_in(dropped_view(dropped@), (table@, h)) == -1,
        },
{
    let ghost dv = dropped_view(dropped@);
    let mut j: usize = 0;
    while j < dropped.len()
        invariant
            j <= dropped.len(),
            dv == dropped_view(dropped@),
            forall|k: int| 0 <= k < j ==> #[trigger] dv[k] != (table@, h),
        decreases dropped.len() - j,
    {
        if dropped[j].1 == h && str_eq(dropped[j].0.as_str(), table) {
            proof {
                lemma_index_in(dv, (table@, h), j as int);
            }
            return Some(j);
        }
        j = j + 1;
    }
    proof {
        lemma_index_in(dv, (table@, h), j as int);
    }
    None
}

fn added_position(added: &Vec<AddedRow>, table: &str, h: u64) -> (r: Option<usize>)
    ensures
        match r {
            Some(j) => j < added@.len() && j as int == added_at(added_view(added@), table@, h),
            None => added_at(added_view(added@), table@, h) == -1,
        },
{
    let ghost av = added_view(added@);
    let mut j: usize = 0;
    while j < added.len()
        invariant
            j <= added.len(),
            av == added_view(added@),
            forall|k: int| 0 <= k < j ==> !(#[trigger] av[k].0 == table@ && av[k].1 == h),
        decreases added.len() - j,
    {
        if added[j].hash == h && str_eq(added[j].table.as_str(), table) {
            proof {
                lemma_added_at(av, table@, h, j as int);
            }
            return Some(j);
        }
        j = j + 1;
    }
    proof {
        lemma_added_at(av, table@, h, j as int);
    }
    None
}

/// Whether added rows of `table` are rows of the struct table, merged as
/// structs.
pub open spec fn struct_rows(table: Seq<char>, wide: bool) -> bool {
    table == "Struct"@ && !wide
}

impl RowBook {
    pub fn new() -> (r: RowBook)
        ensures
            r.added@.len() == 0,
            r.dropped@.len() == 0,
    {
        RowBook { added: Vec::new(), dropped: Vec::new() }
    }

    /// The bookkeeping of `table`'s part of changelog `c`: each row whose
    /// hash an entry names takes that entry (to drop the row, to merge into
    /// it, or, for a row a changelog added, to merge at the end); the
    /// entries no row took add rows, in order. Gives the steps for the
    /// host to carry out.
    pub fn walk_table(
        &mut self,
        table: &str,
        wide: bool,
        rows: &mut Vec<Option<u64>>,
        entries: &Vec<(u64, RowChange)>,
        c: usize,
    ) -> (r: Vec<RowStep>)
        ensures
            ({
                let (taken, a, d, steps) = rows_walked(
                    table@,
                    old(rows)@,
                    entries@,
                    c,
                    added_view(old(self).added@),
                    dropped_view(old(self).dropped@),
                    old(rows)@.len() as int,
                );
                let (r2, a2, s2) = leftovers(
                    table@,
                    struct_rows(table@, wide),
                    entries@,
                    taken,
                    old(rows)@,
                    a,
                    steps,
                    entries@.len() as int,
                );
                &&& final(rows)@ == r2
                &&& added_view(final(self).added@) == a2
                &&& dropped_view(final(self).dropped@) == d
                &&& r@ == s2
            }),
    {
        let ghost rows0 = rows@;
        let ghost a0 = added_view(self.added@);
        let ghost d0 = dropped_view(self.dropped@);
        let n = rows.len();
        let mut taken: Vec<bool> = Vec::new();
        let mut k: usize = 0;
        while k < entries.len()
            invariant
                k <= entries.len(),
                taken@ == Seq::new(k as nat, |j: int| false),
            decreases entries.len() - k,
        {
            taken.push(false);
            k = k + 1;
            assert(taken@ =~= Seq::new(k as nat, |j: int| false));
        }
        let mut steps: Vec<RowStep> = Vec::new();
        let mut i: usize = 0;
        assert(steps@ =~= Seq::<RowStep>::empty());
        while i < n
            invariant
                i <= n,
                n == rows@.len(),
                rows@ == rows0,
                a0 == added_view(old(self).added@),
                d0 == dropped_view(old(self).dropped@),
                (taken@, added_view(self.added@), dropped_view(self.dropped@), steps@) == rows_walked(
                    table@,
                    rows0,
                    entries@,
                    c,
                    a0,
                    d0,
                    i as int,
                ),
                taken@.len() == entries@.len(),
            decreases n - i,
        {
            match rows[i] {
                None => {},
                Some(h) => {
                    match hash_position(entries, h) {
                        None => {},
                        Some(j) => {
                            if !taken[j] {
                                taken.set(j, true);
                                match entries[j].1 {
                                    RowChange::Remove => {
                                        let ghost dv = dropped_view(self.dropped@);
                                        match dropped_position(&self.dropped, table, h) {
                                            Some(_) => {},
                                            None => {
                                                self.dropped.push((crate::config::owned(table), h));
                                                assert(dropped_view(self.dropped@) =~= dv.push((table@, h)));
                                            },
                                        }
                                    },
                                    RowChange::Edit(_) => {
                                        let ghost dv = dropped_view(self.dropped@);
                                        match dropped_position(&self.dropped, table, h) {
                                            Some(p) => {
                                                self.dropped.remove(p);
                                                assert(dropped_view(self.dropped@) =~= dv.remove(p as int));
                                            },
                                            None => {},
                                        }
                                        let ghost av = added_view(self.added@);
                                        match added_position(&self.added, table, h) {
                                            Some(p) => {
                                                self.added[p].changes.push((c, j));
                                                assert(added_view(self.added@) =~= av.update(
                                                    p as int,
                                                    (av[p as int].0, av[p as int].1, av[p as int].2, av[p as int].3.push((c, j))),
                                                ));
                                            },
                                            None => {
                                                steps.push(RowStep::Merge(i, j));
                                            },
                                        }
                                    },
                                }
                            }
                        },
                    }
                },
            }
            i = i + 1;
        }
        let ghost taken_all = taken@;
        let ghost a1 = added_view(self.added@);
        let ghost s1 = steps@;
        let is_struct = str_eq(table, "Struct") && !wide;
        proof {
            reveal_strlit("Struct");
        }
        let mut j: usize = 0;
        while j < entries.len()
            invariant
                j <= entries.len(),
                taken@ == taken_all,
                taken_all.len() == entries@.len(),
                is_struct == struct_rows(table@, wide),
                (rows@, added_view(self.added@), steps@) == leftovers(
                    table@,
                    is_struct,
                    entries@,
                    taken_all,
                    rows0,
                    a1,
                    s1,
                    j as int,
                ),
                dropped_view(self.dropped@) == rows_walked(table@, rows0, entries@, c, a0, d0, rows0.len() as int).2,
            decreases entries.len() - j,
        {
            if !taken[j] {
                match entries[j].1 {
                    RowChange::Remove => {},
                    RowChange::Edit(row_hash) => {
                        rows.push(row_hash);
                        let ghost av = added_view(self.added@);
                        self.added.push(
                            AddedRow {
                                table: crate::config::owned(table),
                                hash: entries[j].0,
                                is_struct,
                                changes: Vec::new(),
                            },
                        );
                        assert(added_view(self.added@) =~= av.push((table@, entries@[j as int].0, is_struct, Seq::empty())));
                        steps.push(RowStep::Append(j));
                    },
                }
            }
            j = j + 1;
        }
        steps
    }
}

/// Where the first row with hash `h` stands, if any: the row a merge of
/// several mods' edits goes into at the end.
pub fn row_of(rows: &Vec<Option<u64>>, h: u64) -> (r: Option<usize>)
    ensures
        match r {
            Some(p) => p < rows@.len() && p as int == index_in(rows@, Some(h)),
            None => index_in(rows@, Some(h)) == -1,
        },
{
    let mut p: usize = 0;
    while p < rows.len()
        invariant
            p <= rows.len(),
            forall|k: int| 0 <= k < p ==> #[trigger] rows@[k] != Some(h),
        decreases rows.len() - p,
    {
        if rows[p] == Some(h) {
            proof {
                lemma_index_in(rows@, Some(h), p as int);
            }
            return Some(p);
        }
        p = p + 1;
    }
    proof {
        lemma_index_in(rows@, Some(h), p as int);
    }
    None
}

/// Drops the first row with hash `h`, if any, and gives where it stood.
pub fn drop_row(rows: &mut Vec<Option<u64>>, h: u64) -> (r: Option<usize>)
    ensures
        match r {
            Some(p) => p as int == index_in(old(rows)@, Some(h)) && final(rows)@ == old(rows)@.remove(p as int),
            None => index_in(old(rows)@, Some(h)) == -1 && final(rows)@ == old(rows)@,
        },
{
    match row_of(rows, h) {
        Some(p) => {
            rows.remove(p);
            Some(p)
        },
        None => None,
    }
}

// --- save data sizes ------------------------------------------------------------------------

/// How the length of an array entry is given.
pub enum CountField {
    /// By the first of `ArraySize` (`true`) and `Size` (`false`) the entry
    /// has, with its value when that is a UInt32.
    Field(bool, Option<u32>),
    /// By the number of its default values.
    Values(usize),
    /// Not at all.
    Missing,
}

/// What the save data sizes read of a row of the save data list.
pub struct MetaRow {
    /// Its `SaveFileIndex`, when that is an Int; rows without one count for
    /// nothing.
    pub save_file_index: Option<i32>,
    /// The length of an array entry.
    pub count: CountField,
    /// Its `DefaultValue`, when that is a UInt32 (the size of a binary).
    pub binary_default: Option<u32>,
}

/// The save data sizes of a merged save data list.
pub struct GameDataMetadata {
    pub all_offset: i32,
    pub all_size: i32,
    /// The offset table of each of the seven save files.
    pub offsets: Vec<i32>,
    /// The size of each of the seven save files.
    pub sizes: Vec<i32>,
}

/// What every save file starts with.
pub const DEFAULT_SIZE: i32 = 0x130;

/// The tables of the save data list that take room in save files, in the
/// order they are counted.
pub open spec fn valid_tables() -> Seq<Seq<char>> {
    seq![
        "Binary"@, "BinaryArray"@, "Bool"@, "Bool64bitKey"@, "BoolArray"@, "Enum"@, "EnumArray"@, "Float"@,
        "FloatArray"@, "Int"@, "Int64"@, "Int64Array"@, "IntArray"@, "String16"@, "String16Array"@, "String32"@,
        "String32Array"@, "String64"@, "String64Array"@, "UInt"@, "UInt64"@, "UInt64Array"@, "UIntArray"@,
        "Vector2"@, "Vector2Array"@, "Vector3"@, "Vector3Array"@, "WString16"@, "WString16Array"@, "WString32"@,
        "WString32Array"@, "WString64"@, "WString64Array"@,
    ]
}

fn valid_table(k: usize) -> (r: &'static str)
    requires
        k < 33,
    ensures
        r@ == valid_tables()[k as int],
{
    match k {
        0 => "Binary",
        1 => "BinaryArray",
        2 => "Bool",
        3 => "Bool64bitKey",
        4 => "BoolArray",
        5 => "Enum",
        6 => "EnumArray",
        7 => "Float",
        8 => "FloatArray",
        9 => "Int",
        10 => "Int64",
        11 => "Int64Array",
        12 => "IntArray",
        13 => "String16",
        14 => "String16Array",
        15 => "String32",
        16 => "String32Array",
        17 => "String64",
        18 => "String64Array",
        19 => "UInt",
        20 => "UInt64",
        21 => "UInt64Array",
        22 => "UIntArray",
        23 => "Vector2",
        24 => "Vector2Array",
        25 => "Vector3",
        26 => "Vector3Array",
        27 => "WString16",
        28 => "WString16Array",
        29 => "WString32",
        30 => "WString32Array",
        31 => "WString64",
        _ => "WString64Array",
    }
}

pub open spec fn r32(x: int) -> bool {
    i32::MIN <= x <= i32::MAX
}

pub open spec fn is_array_table(t: Seq<char>) -> bool {
    t.len() > 5 && ends_with(t, "Array"@)
}

/// Bytes a value of the type takes.
pub open spec fn type_width(tn: Seq<char>) -> int {
    if tn == "UInt64"@ || tn == "Int64"@ || tn == "Vector2"@ {
        8
    } else if tn == "Vector3"@ {
        12
    } else if tn == "String16"@ {
        16
    } else if tn == "String32"@ || tn == "WString16"@ {
        32
    } else if tn == "String64"@ || tn == "WString32"@ {
        64
    } else if tn == "WString64"@ {
        128
    } else {
        0
    }
}

pub open spec fn not_uint(array_size: bool, t: Seq<char>) -> Seq<char> {
    "'"@ + (if array_size {
        "ArraySize"@
    } else {
        "Size"@
    }) + "' in '"@ + t + "' is not a UInt32"@
}

pub open spec fn undetermined(t: Seq<char>) -> Seq<char> {
    "the length of an array entry in '"@ + t + "' could not be determined"@
}

/// The length of an array entry of table `t`, or what stops it.
pub open spec fn array_count_spec(t: Seq<char>, row: MetaRow) -> Result<int, Seq<char>> {
    match row.count {
        CountField::Field(_, Some(v)) => Ok((v as i32) as int),
        CountField::Field(a, None) => Err(not_uint(a, t)),
        CountField::Values(n) => Ok((n as i32) as int),
        CountField::Missing => Err(undetermined(t)),
    }
}

/// Whole division leaving out the remainder, toward zero.
pub open spec fn div_toward_zero(x: int, d: int) -> int {
    if x >= 0 {
        x / d
    } else {
        -((-x) / d)
    }
}

/// The bytes a row of table `t` takes, and whether every step of working
/// it out stays a 32-bit number.
pub open spec fn entry_size_spec(t: Seq<char>, row: MetaRow) -> Result<(int, bool), Seq<char>> {
    let arr = is_array_table(t);
    let counted = if arr {
        array_count_spec(t, row)
    } else {
        Ok(1int)
    };
    match counted {
        Err(m) => Err(m),
        Ok(count) => {
            let size: int = if arr {
                0xC
            } else {
                0x8
            };
            let tn = if arr {
                t.take(t.len() - 5)
            } else {
                t
            };
            if t == "BoolArray"@ {
                let x = count + 7;
                let bytes = div_toward_zero(x, 8);
                let value = if bytes > 3 {
                    bytes
                } else {
                    4
                };
                let m = ((value + 3) / 4) * 4;
                Ok((size + m, r32(x) && r32(value + 3) && r32(m) && r32(size + m)))
            } else if t == "IntArray"@ || t == "FloatArray"@ || t == "UIntArray"@ || t == "EnumArray"@ {
                Ok((size + count * 4, r32(count * 4) && r32(size + count * 4)))
            } else if t == "Binary"@ || t == "BinaryArray"@ {
                match row.binary_default {
                    Some(d) => {
                        let b = count * ((d as i32) as int);
                        Ok(
                            (
                                size + count * 4 + b,
                                r32(count * 4) && r32(size + count * 4) && r32(b) && r32(size + count * 4 + b),
                            ),
                        )
                    },
                    None => Ok((size + count * 4, r32(count * 4) && r32(size + count * 4))),
                }
            } else {
                let a = count * type_width(tn);
                Ok((size + a, r32(a) && r32(size + a)))
            }
        },
    }
}

/// The sizes worked out so far.
pub struct MetaState {
    pub offsets: Seq<int>,
    pub sizes: Seq<int>,
    pub has_key: Seq<bool>,
    pub all_offset: int,
    pub all_size: int,
    /// Every number so far a 32-bit one.
    pub fits: bool,
    /// What stopped the count, if anything did.
    pub err: Option<Seq<char>>,
}

pub open spec fn meta_start() -> MetaState {
    MetaState {
        offsets: Seq::new(7, |i: int| 0int),
        sizes: Seq::new(7, |i: int| 0int),
        has_key: Seq::new(7, |i: int| false),
        all_offset: DEFAULT_SIZE as int,
        all_size: DEFAULT_SIZE as int,
        fits: true,
        err: None,
    }
}

pub open spec fn empty_name(o: Option<String>) -> bool {
    match o {
        Some(d) => d@.len() == 0,
        None => false,
    }
}

/// Whether the directory of save file `i` is an empty name: its rows are
/// in no save file.
pub open spec fn no_directory(dirs: Seq<Option<String>>, i: int) -> bool {
    i == -1 || (0 <= i < dirs.len() && empty_name(dirs[i]))
}

pub open spec fn out_of_range(i: int) -> Seq<char> {
    "save file index "@ + signed_text(i) + " out of range"@
}

/// The sizes after one row of table `t`.
pub open spec fn meta_step(dirs: Seq<Option<String>>, t: Seq<char>, row: MetaRow, st: MetaState) -> MetaState {
    if st.err is Some {
        st
    } else {
        match row.save_file_index {
            None => st,
            Some(i) => {
                let bool64 = t == "Bool64bitKey"@;
                if no_directory(dirs, i as int) {
                    if bool64 {
                        st
                    } else {
                        match entry_size_spec(t, row) {
                            Err(m) => MetaState { err: Some(m), fits: st.fits && r32(st.all_offset + 8), ..st },
                            Ok((e, ok)) => MetaState {
                                all_offset: st.all_offset + 8,
                                all_size: st.all_size + e,
                                fits: st.fits && r32(st.all_offset + 8) && ok && r32(st.all_size + e),
                                ..st
                            },
                        }
                    }
                } else if i < 0 || i >= 7 {
                    MetaState { err: Some(out_of_range(i as int)), ..st }
                } else {
                    let slot = i as int;
                    let st2 = if !bool64 {
                        MetaState {
                            offsets: st.offsets.update(slot, st.offsets[slot] + 8),
                            all_offset: st.all_offset + 8,
                            fits: st.fits && r32(st.offsets[slot] + 8) && r32(st.all_offset + 8),
                            ..st
                        }
                    } else if !st.has_key[slot] {
                        MetaState {
                            sizes: st.sizes.update(slot, st.sizes[slot] + 8),
                            all_size: st.all_size + 8,
                            has_key: st.has_key.update(slot, true),
                            fits: st.fits && r32(st.sizes[slot] + 8) && r32(st.all_size + 8),
                            ..st
                        }
                    } else {
                        st
                    };
                    match entry_size_spec(t, row) {
                        Err(m) => MetaState { err: Some(m), ..st2 },
                        Ok((e, ok)) => MetaState {
                            sizes: st2.sizes.update(slot, st2.sizes[slot] + e),
                            all_size: st2.all_size + e,
                            fits: st2.fits && ok && r32(st2.sizes[slot] + e) && r32(st2.all_size + e),
                            ..st2
                        },
                    }
                }
            },
        }
    }
}

/// The sizes after the first `n` rows of table `t`.
pub open spec fn meta_rows(dirs: Seq<Option<String>>, t: Seq<char>, rows: Seq<MetaRow>, st: MetaState, n: int) -> MetaState
    decreases n,
{
    if n <= 0 {
        st
    } else {
        meta_step(dirs, t, rows[n - 1], meta_rows(dirs, t, rows, st, n - 1))
    }
}

/// The rows of the table named `t`, none when there is no such table.
pub open spec fn rows_of(tables: Seq<(String, Vec<MetaRow>)>, t: Seq<char>) -> Seq<MetaRow>
    decreases tables.len(),
{
    if tables.len() == 0 {
        Seq::empty()
    } else if tables[0].0@ == t {
        tables[0].1@
    } else {
        rows_of(tables.skip(1), t)
    }
}

/// The sizes after the first `k` tables of `valid_tables()`.
pub open spec fn meta_tables(dirs: Seq<Option<String>>, tables: Seq<(String, Vec<MetaRow>)>, k: int) -> MetaState
    decreases k,
{
    if k <= 0 {
        meta_start()
    } else {
        let t = valid_tables()[k - 1];
        let rows = rows_of(tables, t);
        meta_rows(dirs, t, rows, meta_tables(dirs, tables, k - 1), rows.len() as int)
    }
}

/// A file's number with the start of a save file added, when it has any.
pub open spec fn with_header(x: int) -> int {
    if x > 0 {
        x + DEFAULT_SIZE
    } else {
        x
    }
}

/// Whether every number worked out stays a 32-bit one.
pub open spec fn metadata_fits(dirs: Seq<Option<String>>, tables: Seq<(String, Vec<MetaRow>)>) -> bool {
    let st = meta_tables(dirs, tables, 33);
    st.fits && (st.err is None ==> forall|i: int| 0 <= i < 7 ==> r32(#[trigger] with_header(st.offsets[i])) && r32(
        with_header(st.sizes[i]),
    ))
}

/// The save data sizes of a merged save data list: its tables by name,
/// and the name of the directory of each save file (`None` for a node that
/// is no string).
pub open spec fn metadata_spec(dirs: Seq<Option<String>>, tables: Seq<(String, Vec<MetaRow>)>) -> Result<
    (int, int, Seq<int>, Seq<int>),
    Seq<char>,
> {
    let st = meta_tables(dirs, tables, 33);
    match st.err {
        Some(m) => Err(m),
        None => Ok(
            (
                st.all_offset,
                st.all_size,
                st.offsets.map_values(|x: int| with_header(x)),
                st.sizes.map_values(|x: int| with_header(x)),
            ),
        ),
    }
}

fn array_count(t: &str, row: &MetaRow) -> (r: Result<i64, String>)
    ensures
        match array_count_spec(t@, *row) {
            Ok(c) => r matches Ok(v) && v as int == c,
            Err(m) => r matches Err(e) && e@ == m,
        },
{
    match row.count {
        CountField::Field(_, Some(v)) => Ok((v as i32) as i64),
        CountField::Field(a, None) => {
            let mut e = crate::config::owned("'");
            push_str(&mut e, if a {
                "ArraySize"
            } else {
                "Size"
            });
            push_str(&mut e, "' in '");
            push_str(&mut e, t);
            push_str(&mut e, "' is not a UInt32");
            Err(e)
        },
        CountField::Values(n) => Ok((n as i32) as i64),
        CountField::Missing => {
            let mut e = crate::config::owned("the length of an array entry in '");
            push_str(&mut e, t);
            push_str(&mut e, "' could not be determined");
            Err(e)
        },
    }
}

fn width_of(tn: &[char]) -> (r: i64)
    ensures
        r as int == type_width(tn@),
{
    if is_lit(tn, "UInt64") || is_lit(tn, "Int64") || is_lit(tn, "Vector2") {
        8
    } else if is_lit(tn, "Vector3") {
        12
    } else if is_lit(tn, "String16") {
        16
    } else if is_lit(tn, "String32") || is_lit(tn, "WString16") {
        32
    } else if is_lit(tn, "String64") || is_lit(tn, "WString32") {
        64
    } else if is_lit(tn, "WString64") {
        128
    } else {
        0
    }
}

/// The bytes a row of table `t` takes, or what stops the count.
fn entry_size(t: &str, row: &MetaRow) -> (r: Result<i64, String>)
    ensures
        match entry_size_spec(t@, *row) {
            Ok((e, _)) => r matches Ok(v) && v as int == e,
            Err(m) => r matches Err(x) && x@ == m,
        },
{
    let tc = chars_of(t);
    let arr = tc.len() > 5 && has_suffix_lit(tc.as_slice(), "Array");
    let count: i64 = if arr {
        match array_count(t, row) {
            Ok(c) => c,
            Err(e) => return Err(e),
        }
    } else {
        1
    };
    assert(i32::MIN <= count <= i32::MAX);
    let size: i64 = if arr {
        0xC
    } else {
        0x8
    };
    let tn = if arr {
        crate::text::slice_of(tc.as_slice(), 0, tc.len() - 5)
    } else {
        crate::text::slice_of(tc.as_slice(), 0, tc.len())
    };
    assert(tn@ =~= (if arr {
        t@.take(t@.len() - 5)
    } else {
        t@
    }));
    if is_lit(tc.as_slice(), "BoolArray") {
        let x = count + 7;
        let bytes: i64 = if x >= 0 {
            ((x as u64) / 8) as i64
        } else {
            -((((-x) as u64) / 8) as i64)
        };
        assert(bytes == div_toward_zero(x as int, 8));
        let value: i64 = if bytes > 3 {
            bytes
        } else {
            4
        };
        let m: i64 = ((((value + 3) as u64) / 4) * 4) as i64;
        Ok(size + m)
    } else if is_lit(tc.as_slice(), "IntArray") || is_lit(tc.as_slice(), "FloatArray") || is_lit(
        tc.as_slice(),
        "UIntArray",
    ) || is_lit(tc.as_slice(), "EnumArray") {
        Ok(size + count * 4)
    } else if is_lit(tc.as_slice(), "Binary") || is_lit(tc.as_slice(), "BinaryArray") {
        match row.binary_default {
            Some(d) => {
                let dd: i64 = (d as i32) as i64;
                assert(count * dd <= 0x4000_0000_0000_0000 && count * dd >= -0x4000_0000_0000_0000) by (nonlinear_arith)
                    requires
                        i32::MIN <= count <= i32::MAX,
                        i32::MIN <= dd <= i32::MAX,
                ;
                Ok(size + count * 4 + count * dd)
            },
            None => Ok(size + count * 4),
        }
    } else {
        let w = width_of(tn.as_slice());
        assert(0 <= w <= 128);
        assert(count * w <= 0x100_0000_0000 && count * w >= -0x100_0000_0000) by (nonlinear_arith)
            requires
                i32::MIN <= count <= i32::MAX,
                0 <= w <= 128,
        ;
        Ok(size + count * w)
    }
}

/// Every number of the sizes is a 32-bit one.
pub open spec fn bounded(st: MetaState) -> bool {
    &&& st.offsets.len() == 7
    &&& st.sizes.len() == 7
    &&& st.has_key.len() == 7
    &&& r32(st.all_offset)
    &&& r32(st.all_size)
    &&& forall|j: int| 0 <= j < 7 ==> #[trigger] r32(st.offsets[j])
    &&& forall|j: int| 0 <= j < 7 ==> #[trigger] r32(st.sizes[j])
}

proof fn lemma_step_bounded(dirs: Seq<Option<String>>, t: Seq<char>, row: MetaRow, st: MetaState)
    requires
        bounded(st),
        meta_step(dirs, t, row, st).fits,
    ensures
        bounded(meta_step(dirs, t, row, st)),
{
    let n = meta_step(dirs, t, row, st);
    assert forall|j: int| 0 <= j < 7 implies #[trigger] r32(n.offsets[j]) by {
        assert(r32(st.offsets[j]));
    }
    assert forall|j: int| 0 <= j < 7 implies #[trigger] r32(n.sizes[j]) by {
        assert(r32(st.sizes[j]));
    }
}

proof fn lemma_rows_prefix_fits(
    dirs: Seq<Option<String>>,
    t: Seq<char>,
    rows: Seq<MetaRow>,
    st: MetaState,
    n: int,
    m: int,
)
    requires
        0 <= m <= n,
        meta_rows(dirs, t, rows, st, n).fits,
    ensures
        meta_rows(dirs, t, rows, st, m).fits,
    decreases n,
{
    if m < n {
        lemma_rows_prefix_fits(dirs, t, rows, st, n - 1, m);
    }
}

proof fn lemma_tables_prefix_fits(dirs: Seq<Option<String>>, tables: Seq<(String, Vec<MetaRow>)>, n: int, k: int)
    requires
        0 <= k <= n,
        meta_tables(dirs, tables, n).fits,
    ensures
        meta_tables(dirs, tables, k).fits,
    decreases n,
{
    if k < n {
        let t = valid_tables()[n - 1];
        let rows = rows_of(tables, t);
        lemma_rows_prefix_fits(dirs, t, rows, meta_tables(dirs, tables, n - 1), rows.len() as int, 0);
        lemma_tables_prefix_fits(dirs, tables, n - 1, k);
    }
}

fn find_table(tables: &Vec<(String, Vec<MetaRow>)>, t: &str) -> (r: Option<usize>)
    ensures
        match r {
            Some(i) => i < tables@.len() && rows_of(tables@, t@) == tables@[i as int].1@,
            None => rows_of(tables@, t@) == Seq::<MetaRow>::empty(),
        },
{
    let mut i: usize = 0;
    assert(tables@.skip(0) =~= tables@);
    while i < tables.len()
        invariant
            i <= tables.len(),
            rows_of(tables@, t@) == rows_of(tables@.skip(i as int), t@),
        decreases tables.len() - i,
    {
        assert(tables@.skip(i as int)[0] == tables@[i as int]);
        if str_eq(tables[i].0.as_str(), t) {
            return Some(i);
        }
        assert(tables@.skip(i as int).skip(1) =~= tables@.skip(i + 1));
        i = i + 1;
    }
    None
}

pub open spec fn ints(v: Seq<i64>) -> Seq<int> {
    v.map_values(|x: i64| x as int)
}

/// The save data sizes of a merged save data list: its tables by name
/// (those that are arrays), and the name of the directory of each save file
/// (`None` for a node that is no string). An error names what stopped the
/// count.
pub fn game_data_metadata(directories: &Vec<Option<String>>, tables: &Vec<(String, Vec<MetaRow>)>) -> (r: Result<
    GameDataMetadata,
    String,
>)
    requires
        metadata_fits(directories@, tables@),
    ensures
        match metadata_spec(directories@, tables@) {
            Ok((o, s, offs, sizes)) => r matches Ok(m) && m.all_offset as int == o && m.all_size as int == s
                && m.offsets@.map_values(|x: i32| x as int) == offs && m.sizes@.map_values(|x: i32| x as int)
                == sizes,
            Err(e) => r matches Err(x) && x@ == e,
        },
{
    let ghost dv = directories@;
    let ghost tv = tables@;
    let mut offsets: Vec<i64> = vec![0, 0, 0, 0, 0, 0, 0];
    let mut sizes: Vec<i64> = vec![0, 0, 0, 0, 0, 0, 0];
    let mut has_key: Vec<bool> = vec![false, false, false, false, false, false, false];
    let mut all_offset: i64 = 0x130;
    let mut all_size: i64 = 0x130;
    let mut err: Option<String> = None;
    let ghost mut st = meta_start();
    assert(ints(offsets@) =~= st.offsets && ints(sizes@) =~= st.sizes && has_key@ =~= st.has_key);
    let mut k: usize = 0;
    while k < 33
        invariant
            k <= 33,
            dv == directories@,
            tv == tables@,
            meta_tables(dv, tv, 33).fits,
            st == meta_tables(dv, tv, k as int),
            ints(offsets@) == st.offsets,
            ints(sizes@) == st.sizes,
            has_key@ == st.has_key,
            offsets@.len() == 7 && sizes@.len() == 7 && has_key@.len() == 7,
            all_offset as int == st.all_offset,
            all_size as int == st.all_size,
            match err {
                Some(m) => st.err == Some(m@),
                None => st.err is None,
            },
            bounded(st),
        decreases 33 - k,
    {
        let t = valid_table(k);
        let ghost base = st;
        proof {
            lemma_tables_prefix_fits(dv, tv, 33, k + 1);
        }
        match find_table(tables, t) {
            None => {
                assert(meta_rows(dv, t@, rows_of(tv, t@), base, 0) == base);
            },
            Some(ti) => {
                let rows = &tables[ti].1;
                let ghost rv = rows@;
                assert(rv == rows_of(tv, t@));
                let bool64 = str_eq(t, "Bool64bitKey");
                let mut i: usize = 0;
                while i < rows.len()
                    invariant
                        i <= rows.len(),
                        k < 33,
                        dv == directories@,
                        rv == rows@,
                        t@ == valid_tables()[k as int],
                        bool64 == (t@ == "Bool64bitKey"@),
                        meta_rows(dv, t@, rv, base, rv.len() as int).fits,
                        st == meta_rows(dv, t@, rv, base, i as int),
                        ints(offsets@) == st.offsets,
                        ints(sizes@) == st.sizes,
                        has_key@ == st.has_key,
                        offsets@.len() == 7 && sizes@.len() == 7 && has_key@.len() == 7,
                        all_offset as int == st.all_offset,
                        all_size as int == st.all_size,
                        match err {
                            Some(m) => st.err == Some(m@),
                            None => st.err is None,
                        },
                        bounded(st),
                    decreases rows.len() - i,
                {
                    proof {
                        lemma_rows_prefix_fits(dv, t@, rv, base, rv.len() as int, i + 1);
                    }
                    let ghost next = meta_step(dv, t@, rv[i as int], st);
                    proof {
                        lemma_step_bounded(dv, t@, rv[i as int], st);
                    }
                    let row = &rows[i];
                    if err.is_none() {
                        match row.save_file_index {
                            None => {},
                            Some(sfi) => {
                                let empty_dir = sfi == -1 || (sfi >= 0 && (sfi as usize) < directories.len()
                                    && match &directories[sfi as usize] {
                                    Some(d) => chars_of(d.as_str()).len() == 0,
                                    None => false,
                                });
                                assert(empty_dir == no_directory(dv, sfi as int));
                                if empty_dir {
                                    if !bool64 {
                                        match entry_size(t, row) {
                                            Err(e) => {
                                                err = Some(e);
                                            },
                                            Ok(e) => {
                                                all_offset = all_offset + 8;
                                                all_size = all_size + e;
                                            },
                                        }
                                    }
                                } else if sfi < 0 || sfi >= 7 {
                                    let mut e = crate::config::owned("save file index ");
                                    push_signed(&mut e, sfi as i64);
                                    push_str(&mut e, " out of range");
                                    err = Some(e);
                                } else {
                                    let slot = sfi as usize;
                                    if !bool64 {
                                        let v = offsets[slot] + 8;
                                        offsets.set(slot, v);
                                        all_offset = all_offset + 8;
                                    } else if !has_key[slot] {
                                        let v = sizes[slot] + 8;
                                        sizes.set(slot, v);
                                        all_size = all_size + 8;
                                        has_key.set(slot, true);
                                    }
                                    match entry_size(t, row) {
                                        Err(e) => {
                                            err = Some(e);
                                        },
                                        Ok(e) => {
                                            let v = sizes[slot] + e;
                                            sizes.set(slot, v);
                                            all_size = all_size + e;
                                        },
                                    }
                                }
                            },
                        }
                    }
                    proof {
                        st = next;
                    }
                    assert(ints(offsets@) =~= st.offsets);
                    assert(ints(sizes@) =~= st.sizes);
                    assert(has_key@ =~= st.has_key);
                    i = i + 1;
                }
            },
        }
        proof {
            st = meta_tables(dv, tv, k + 1);
        }
        k = k + 1;
    }
    match err {
        Some(e) => Err(e),
        None => {
            let mut outs: Vec<i32> = Vec::new();
            let mut szs: Vec<i32> = Vec::new();
            let mut j: usize = 0;
            while j < 7
                invariant
                    j <= 7,
                    offsets@.len() == 7 && sizes@.len() == 7,
                    st.err is None,
                    forall|i: int| 0 <= i < 7 ==> r32(#[trigger] with_header(st.offsets[i])) && r32(
                        with_header(st.sizes[i]),
                    ),
                    ints(offsets@) == st.offsets,
                    ints(sizes@) == st.sizes,
                    outs@.map_values(|x: i32| x as int) == st.offsets.take(j as int).map_values(
                        |x: int| with_header(x),
                    ),
                    szs@.map_values(|x: i32| x as int) == st.sizes.take(j as int).map_values(|x: int| with_header(x)),
                decreases 7 - j,
            {
                assert(r32(with_header(st.offsets[j as int])) && r32(with_header(st.sizes[j as int])));
                let o = offsets[j];
                let z = sizes[j];
                let o2: i64 = if o > 0 {
                    o + 0x130
                } else {
                    o
                };
                let z2: i64 = if z > 0 {
                    z + 0x130
                } else {
                    z
                };
                let ghost before_o = outs@;
                let ghost before_z = szs@;
                assert(o2 as int == with_header(st.offsets[j as int]));
                assert(z2 as int == with_header(st.sizes[j as int]));
                let o3 = o2 as i32;
                let z3 = z2 as i32;
                assert(o3 as int == o2 as int && z3 as int == z2 as int);
                outs.push(o3);
                szs.push(z3);
                assert(outs@.map_values(|x: i32| x as int) =~= before_o.map_values(|x: i32| x as int).push(o3 as int));
                assert(szs@.map_values(|x: i32| x as int) =~= before_z.map_values(|x: i32| x as int).push(z3 as int));
                assert(outs@.map_values(|x: i32| x as int) =~= st.offsets.take(j + 1).map_values(
                    |x: int| with_header(x),
                ));
                assert(szs@.map_values(|x: i32| x as int) =~= st.sizes.take(j + 1).map_values(
                    |x: int| with_header(x),
                ));
                j = j + 1;
            }
            assert(st.offsets.take(7) =~= st.offsets);
            assert(st.sizes.take(7) =~= st.sizes);
            Ok(
                GameDataMetadata {
                    all_offset: all_offset as i32,
                    all_size: all_size as i32,
                    offsets: outs,
                    sizes: szs,
                },
            )
        },
    }
}

// --- the order of a table's rows -----------------------------------------------------------

/// `i` put after every position of `order` whose row's hash is at most
/// its own, and before the rest.
pub open spec fn insert_by_hash(hashes: Seq<u64>, order: Seq<int>, i: int) -> Seq<int>
    decreases order.len(),
{
    if order.len() == 0 {
        seq![i]
    } else if hashes[i] < hashes[order[0]] {
        seq![i] + order
    } else {
        seq![order[0]] + insert_by_hash(hashes, order.skip(1), i)
    }
}

/// The rows of a table in the order of their hashes, rows with equal hashes
/// in the order they had: the first `n` rows, by position.
pub open spec fn hash_order_spec(hashes: Seq<u64>, n: int) -> Seq<int>
    decreases n,
{
    if n <= 0 {
        Seq::empty()
    } else {
        insert_by_hash(hashes, hash_order_spec(hashes, n - 1), n - 1)
    }
}

/// Rows in the order of their hashes.
pub open spec fn by_hash(hashes: Seq<u64>, order: Seq<int>) -> bool {
    forall|a: int, b: int| 0 <= a < b < order.len() ==> hashes[#[trigger] order[a]] <= hashes[#[trigger] order[b]]
}

proof fn lemma_insert_sorted(hashes: Seq<u64>, order: Seq<int>, i: int)
    requires
        by_hash(hashes, order),
    ensures
        by_hash(hashes, insert_by_hash(hashes, order, i)),
        insert_by_hash(hashes, order, i).len() == order.len() + 1,
        forall|x: int| #[trigger] insert_by_hash(hashes, order, i).contains(x) <==> (x == i || order.contains(x)),
    decreases order.len(),
{
    let r = insert_by_hash(hashes, order, i);
    if order.len() == 0 {
        assert forall|x: int| #[trigger] r.contains(x) <==> (x == i || order.contains(x)) by {
            if r.contains(x) {
                assert(r[0] == i);
            }
            if x == i {
                assert(r[0] == x);
            }
        }
    } else if hashes[i] < hashes[order[0]] {
        assert forall|a: int, b: int| 0 <= a < b < r.len() implies hashes[#[trigger] r[a]] <= hashes[#[trigger] r[b]] by {
            if a == 0 {
                assert(r[b] == order[b - 1]);
                if b - 1 > 0 {
                    assert(hashes[order[0]] <= hashes[order[b - 1]]);
                }
            } else {
                assert(r[a] == order[a - 1] && r[b] == order[b - 1]);
            }
        }
        assert forall|x: int| #[trigger] r.contains(x) <==> (x == i || order.contains(x)) by {
            if r.contains(x) {
                let k = choose|k: int| 0 <= k < r.len() && r[k] == x;
                if k > 0 {
                    assert(order[k - 1] == x);
                }
            }
            if order.contains(x) {
                let k = choose|k: int| 0 <= k < order.len() && order[k] == x;
                assert(r[k + 1] == x);
            }
            if x == i {
                assert(r[0] == x);
            }
        }
    } else {
        let rest = order.skip(1);
        assert(by_hash(hashes, rest)) by {
            assert forall|a: int, b: int| 0 <= a < b < rest.len() implies hashes[#[trigger] rest[a]] <= hashes[#[trigger] rest[b]] by {
                assert(rest[a] == order[a + 1] && rest[b] == order[b + 1]);
            }
        }
        lemma_insert_sorted(hashes, rest, i);
        let t = insert_by_hash(hashes, rest, i);
        assert(r == seq![order[0]] + t);
        assert forall|x: int| #[trigger] rest.contains(x) ==> hashes[order[0]] <= hashes[x] by {
            if rest.contains(x) {
                let k = choose|k: int| 0 <= k < rest.len() && rest[k] == x;
                assert(order[k + 1] == x);
            }
        }
        assert forall|a: int, b: int| 0 <= a < b < r.len() implies hashes[#[trigger] r[a]] <= hashes[#[trigger] r[b]] by {
            if a == 0 {
                assert(r[b] == t[b - 1]);
                assert(t.contains(t[b - 1]));
            } else {
                assert(r[a] == t[a - 1] && r[b] == t[b - 1]);
            }
        }
        assert forall|x: int| #[trigger] order.contains(x) <==> (x == order[0] || rest.contains(x)) by {
            if order.contains(x) {
                let k = choose|k: int| 0 <= k < order.len() && order[k] == x;
                if k > 0 {
                    assert(rest[k - 1] == x);
                }
            }
            if rest.contains(x) {
                let k = choose|k: int| 0 <= k < rest.len() && rest[k] == x;
                assert(order[k + 1] == x);
            }
            if x == order[0] {
                assert(order[0] == x);
            }
        }
        assert forall|x: int| #[trigger] r.contains(x) <==> (x == order[0] || t.contains(x)) by {
            if r.contains(x) {
                let k = choose|k: int| 0 <= k < r.len() && r[k] == x;
                if k > 0 {
                    assert(t[k - 1] == x);
                }
            }
            if t.contains(x) {
                let k = choose|k: int| 0 <= k < t.len() && t[k] == x;
                assert(r[k + 1] == x);
            }
            if x == order[0] {
                assert(r[0] == x);
            }
        }
    }
}

/// Rows put in hash order come out in the order of their hashes, each row
/// once.
pub proof fn lemma_hash_order(hashes: Seq<u64>, n: int)
    requires
        0 <= n <= hashes.len(),
    ensures
        by_hash(hashes, hash_order_spec(hashes, n)),
        hash_order_spec(hashes, n).len() == n,
        forall|x: int| #[trigger] hash_order_spec(hashes, n).contains(x) <==> 0 <= x < n,
    decreases n,
{
    if n > 0 {
        lemma_hash_order(hashes, n - 1);
        lemma_insert_sorted(hashes, hash_order_spec(hashes, n - 1), n - 1);
    }
}

fn insert_row(hashes: &Vec<u64>, order: &mut Vec<usize>, i: usize)
    requires
        i < hashes@.len(),
        forall|k: int| 0 <= k < old(order)@.len() ==> #[trigger] old(order)@[k] < hashes@.len(),
    ensures
        final(order)@.map_values(|k: usize| k as int) == insert_by_hash(
            hashes@,
            old(order)@.map_values(|k: usize| k as int),
            i as int,
        ),
        forall|k: int| 0 <= k < final(order)@.len() ==> #[trigger] final(order)@[k] < hashes@.len(),
{
    let ghost o = old(order)@.map_values(|k: usize| k as int);
    let mut p: usize = 0;
    assert(o.skip(0) =~= o);
    while p < order.len() && hashes[order[p]] <= hashes[i]
        invariant
            p <= order.len(),
            order@ == old(order)@,
            o == old(order)@.map_values(|k: usize| k as int),
            i < hashes@.len(),
            forall|k: int| 0 <= k < order@.len() ==> #[trigger] order@[k] < hashes@.len(),
            insert_by_hash(hashes@, o, i as int) == o.take(p as int) + insert_by_hash(
                hashes@,
                o.skip(p as int),
                i as int,
            ),
        decreases order.len() - p,
    {
        let ghost rest = o.skip(p as int);
        assert(rest[0] == order@[p as int] as int);
        assert(rest.skip(1) =~= o.skip(p + 1));
        assert(o.take(p as int) + seq![rest[0]] =~= o.take(p + 1));
        assert(o.take(p as int) + (seq![rest[0]] + insert_by_hash(hashes@, rest.skip(1), i as int)) =~= o.take(
            p + 1,
        ) + insert_by_hash(hashes@, o.skip(p + 1), i as int));
        p = p + 1;
    }
    let ghost rest = o.skip(p as int);
    if p < order.len() {
        assert(rest[0] == order@[p as int] as int);
    } else {
        assert(rest.len() == 0);
    }
    assert(insert_by_hash(hashes@, rest, i as int) =~= seq![i as int] + rest);
    order.insert(p, i);
    assert(order@.map_values(|k: usize| k as int) =~= o.take(p as int) + (seq![i as int] + rest));
}

/// The positions of a table's rows in the order of their hashes (every row
/// carries one of the table's width), rows with equal hashes in the order
/// they had.
pub fn hash_order(hashes: &Vec<u64>) -> (r: Vec<usize>)
    ensures
        r@.map_values(|k: usize| k as int) == hash_order_spec(hashes@, hashes@.len() as int),
{
    let mut order: Vec<usize> = Vec::new();
    let mut i: usize = 0;
    assert(order@.map_values(|k: usize| k as int) =~= Seq::<int>::empty());
    while i < hashes.len()
        invariant
            i <= hashes.len(),
            order@.map_values(|k: usize| k as int) == hash_order_spec(hashes@, i as int),
            forall|k: int| 0 <= k < order@.len() ==> #[trigger] order@[k] < hashes@.len(),
        decreases hashes.len() - i,
    {
        insert_row(hashes, &mut order, i);
        i = i + 1;
    }
    order
}

proof fn lemma_differ(a: Seq<char>, b: Seq<char>, i: int)
    requires
        0 <= i < a.len(),
        i < b.len(),
        a[i] != b[i],
    ensures
        a != b,
{
}

/// A row of a value table that is no array takes 8 bytes and its value's.
proof fn lemma_plain_row(t: Seq<char>, row: MetaRow)
    requires
        !is_array_table(t),
        t != "BoolArray"@,
        t != "IntArray"@,
        t != "FloatArray"@,
        t != "UIntArray"@,
        t != "EnumArray"@,
        t != "Binary"@,
        t != "BinaryArray"@,
        0 <= type_width(t) <= 128,
    ensures
        entry_size_spec(t, row) == Ok::<(int, bool), Seq<char>>((8 + type_width(t), true)),
{
}

proof fn lemma_row_size_uint64(row: MetaRow)
    ensures
        entry_size_spec("UInt64"@, row) == Ok::<(int, bool), Seq<char>>((16, true)),
{
    reveal_strlit("Array");
    reveal_strlit("Binary");
    reveal_strlit("BinaryArray");
    reveal_strlit("BoolArray");
    reveal_strlit("EnumArray");
    reveal_strlit("FloatArray");
    reveal_strlit("IntArray");
    reveal_strlit("UInt64");
    reveal_strlit("UIntArray");
    assert("UInt64"@.len() == 6);
    assert("UInt64"@[0] == 'U');
    assert("Binary"@[0] == 'B');
    assert("UInt64"@[0] == 'U' && "Binary"@[0] == 'B');
    lemma_differ("UInt64"@, "Binary"@, 0);
    assert("UInt64"@[1] == 'I' && "Array"@[0] == 'A');
    assert("UInt64"@.skip(1)[0] == "UInt64"@[1]);
    lemma_differ("UInt64"@.skip(1), "Array"@, 0);
    assert(type_width("UInt64"@) == 8);
    assert(!is_array_table("UInt64"@));
    lemma_plain_row("UInt64"@, row);
}

proof fn lemma_row_size_int64(row: MetaRow)
    ensures
        entry_size_spec("Int64"@, row) == Ok::<(int, bool), Seq<char>>((16, true)),
{
    reveal_strlit("Array");
    reveal_strlit("Binary");
    reveal_strlit("BinaryArray");
    reveal_strlit("BoolArray");
    reveal_strlit("EnumArray");
    reveal_strlit("FloatArray");
    reveal_strlit("Int64");
    reveal_strlit("IntArray");
    reveal_strlit("UInt64");
    reveal_strlit("UIntArray");
    assert("Int64"@[0] == 'I' && "Array"@[0] == 'A');
    assert("Int64"@.skip(0)[0] == "Int64"@[0]);
    lemma_differ("Int64"@.skip(0), "Array"@, 0);
    assert(type_width("Int64"@) == 8);
    assert(!is_array_table("Int64"@));
    lemma_plain_row("Int64"@, row);
}

proof fn lemma_row_size_vector2(row: MetaRow)
    ensures
        entry_size_spec("Vector2"@, row) == Ok::<(int, bool), Seq<char>>((16, true)),
{
    reveal_strlit("Array");
    reveal_strlit("Binary");
    reveal_strlit("BinaryArray");
    reveal_strlit("BoolArray");
    reveal_strlit("EnumArray");
    reveal_strlit("FloatArray");
    reveal_strlit("Int64");
    reveal_strlit("IntArray");
    reveal_strlit("UInt64");
    reveal_strlit("UIntArray");
    reveal_strlit("Vector2");
    assert("Vector2"@[2] == 'c' && "Array"@[0] == 'A');
    assert("Vector2"@.skip(2)[0] == "Vector2"@[2]);
    lemma_differ("Vector2"@.skip(2), "Array"@, 0);
    assert(type_width("Vector2"@) == 8);
    assert(!is_array_table("Vector2"@));
    lemma_plain_row("Vector2"@, row);
}

proof fn lemma_row_size_vector3(row: MetaRow)
    ensures
        entry_size_spec("Vector3"@, row) == Ok::<(int, bool), Seq<char>>((20, true)),
{
    reveal_strlit("Array");
    reveal_strlit("Binary");
    reveal_strlit("BinaryArray");
    reveal_strlit("BoolArray");
    reveal_strlit("EnumArray");
    reveal_strlit("FloatArray");
    reveal_strlit("Int64");
    reveal_strlit("IntArray");
    reveal_strlit("UInt64");
    reveal_strlit("UIntArray");
    reveal_strlit("Vector2");
    reveal_strlit("Vector3");
    assert("Vector3"@[6] == '3' && "Vector2"@[6] == '2');
    lemma_differ("Vector3"@, "Vector2"@, 6);
    assert("Vector3"@[2] == 'c' && "Array"@[0] == 'A');
    assert("Vector3"@.skip(2)[0] == "Vector3"@[2]);
    lemma_differ("Vector3"@.skip(2), "Array"@, 0);
    assert(type_width("Vector3"@) == 12);
    assert(!is_array_table("Vector3"@));
    lemma_plain_row("Vector3"@, row);
}

proof fn lemma_row_size_string16(row: MetaRow)
    ensures
        entry_size_spec("String16"@, row) == Ok::<(int, bool), Seq<char>>((24, true)),
{
    reveal_strlit("Array");
    reveal_strlit("Binary");
    reveal_strlit("BinaryArray");
    reveal_strlit("BoolArray");
    reveal_strlit("EnumArray");
    reveal_strlit("FloatArray");
    reveal_strlit("Int64");
    reveal_strlit("IntArray");
    reveal_strlit("String16");
    reveal_strlit("UInt64");
    reveal_strlit("UIntArray");
    reveal_strlit("Vector2");
    reveal_strlit("Vector3");
    assert("String16"@[0] == 'S' && "IntArray"@[0] == 'I');
    lemma_differ("String16"@, "IntArray"@, 0);
    assert("String16"@[3] == 'i' && "Array"@[0] == 'A');
    assert("String16"@.skip(3)[0] == "String16"@[3]);
    lemma_differ("String16"@.skip(3), "Array"@, 0);
    assert(type_width("String16"@) == 16);
    assert(!is_array_table("String16"@));
    lemma_plain_row("String16"@, row);
}

proof fn lemma_row_size_string32(row: MetaRow)
    ensures
        entry_size_spec("String32"@, row) == Ok::<(int, bool), Seq<char>>((40, true)),
{
    reveal_strlit("Array");
    reveal_strlit("Binary");
    reveal_strlit("BinaryArray");
    reveal_strlit("BoolArray");
    reveal_strlit("EnumArray");
    reveal_strlit("FloatArray");
    reveal_strlit("Int64");
    reveal_strlit("IntArray");
    reveal_strlit("String16");
    reveal_strlit("String32");
    reveal_strlit("UInt64");
    reveal_strlit("UIntArray");
    reveal_strlit("Vector2");
    reveal_strlit("Vector3");
    assert("String32"@[6] == '3' && "String16"@[6] == '1');
    lemma_differ("String32"@, "String16"@, 6);
    assert("String32"@[0] == 'S' && "IntArray"@[0] == 'I');
    lemma_differ("String32"@, "IntArray"@, 0);
    assert("String32"@[3] == 'i' && "Array"@[0] == 'A');
    assert("String32"@.skip(3)[0] == "String32"@[3]);
    lemma_differ("String32"@.skip(3), "Array"@, 0);
    assert(type_width("String32"@) == 32);
    assert(!is_array_table("String32"@));
    lemma_plain_row("String32"@, row);
}

proof fn lemma_row_size_wstring16(row: MetaRow)
    ensures
        entry_size_spec("WString16"@, row) == Ok::<(int, bool), Seq<char>>((40, true)),
{
    reveal_strlit("Array");
    reveal_strlit("Binary");
    reveal_strlit("BinaryArray");
    reveal_strlit("BoolArray");
    reveal_strlit("EnumArray");
    reveal_strlit("FloatArray");
    reveal_strlit("Int64");
    reveal_strlit("IntArray");
    reveal_strlit("String16");
    reveal_strlit("String32");
    reveal_strlit("UInt64");
    reveal_strlit("UIntArray");
    reveal_strlit("Vector2");
    reveal_strlit("Vector3");
    reveal_strlit("WString16");
    assert("WString16"@[0] == 'W' && "BoolArray"@[0] == 'B');
    lemma_differ("WString16"@, "BoolArray"@, 0);
    assert("WString16"@[0] == 'W' && "UIntArray"@[0] == 'U');
    lemma_differ("WString16"@, "UIntArray"@, 0);
    assert("WString16"@[0] == 'W' && "EnumArray"@[0] == 'E');
    lemma_differ("WString16"@, "EnumArray"@, 0);
    assert("WString16"@[4] == 'i' && "Array"@[0] == 'A');
    assert("WString16"@.skip(4)[0] == "WString16"@[4]);
    lemma_differ("WString16"@.skip(4), "Array"@, 0);
    assert(type_width("WString16"@) == 32);
    assert(!is_array_table("WString16"@));
    lemma_plain_row("WString16"@, row);
}

proof fn lemma_row_size_string64(row: MetaRow)
    ensures
        entry_size_spec("String64"@, row) == Ok::<(int, bool), Seq<char>>((72, true)),
{
    reveal_strlit("Array");
    reveal_strlit("Binary");
    reveal_strlit("BinaryArray");
    reveal_strlit("BoolArray");
    reveal_strlit("EnumArray");
    reveal_strlit("FloatArray");
    reveal_strlit("Int64");
    reveal_strlit("IntArray");
    reveal_strlit("String16");
    reveal_strlit("String32");
    reveal_strlit("String64");
    reveal_strlit("UInt64");
    reveal_strlit("UIntArray");
    reveal_strlit("Vector2");
    reveal_strlit("Vector3");
    reveal_strlit("WString16");
    assert("String64"@[6] == '6' && "String16"@[6] == '1');
    lemma_differ("String64"@, "String16"@, 6);
    assert("String64"@[6] == '6' && "String32"@[6] == '3');
    lemma_differ("String64"@, "String32"@, 6);
    assert("String64"@[0] == 'S' && "IntArray"@[0] == 'I');
    lemma_differ("String64"@, "IntArray"@, 0);
    assert("String64"@[3] == 'i' && "Array"@[0] == 'A');
    assert("String64"@.skip(3)[0] == "String64"@[3]);
    lemma_differ("String64"@.skip(3), "Array"@, 0);
    assert(type_width("String64"@) == 64);
    assert(!is_array_table("String64"@));
    lemma_plain_row("String64"@, row);
}

proof fn lemma_row_size_wstring32(row: MetaRow)
    ensures
        entry_size_spec("WString32"@, row) == Ok::<(int, bool), Seq<char>>((72, true)),
{
    reveal_strlit("Array");
    reveal_strlit("Binary");
    reveal_strlit("BinaryArray");
    reveal_strlit("BoolArray");
    reveal_strlit("EnumArray");
    reveal_strlit("FloatArray");
    reveal_strlit("Int64");
    reveal_strlit("IntArray");
    reveal_strlit("String16");
    reveal_strlit("String32");
    reveal_strlit("String64");
    reveal_strlit("UInt64");
    reveal_strlit("UIntArray");
    reveal_strlit("Vector2");
    reveal_strlit("Vector3");
    reveal_strlit("WString16");
    reveal_strlit("WString32");
    assert("WString32"@[7] == '3' && "WString16"@[7] == '1');
    lemma_differ("WString32"@, "WString16"@, 7);
    assert("WString32"@[0] == 'W' && "BoolArray"@[0] == 'B');
    lemma_differ("WString32"@, "BoolArray"@, 0);
    assert("WString32"@[0] == 'W' && "UIntArray"@[0] == 'U');
    lemma_differ("WString32"@, "UIntArray"@, 0);
    assert("WString32"@[0] == 'W' && "EnumArray"@[0] == 'E');
    lemma_differ("WString32"@, "EnumArray"@, 0);
    assert("WString32"@[4] == 'i' && "Array"@[0] == 'A');
    assert("WString32"@.skip(4)[0] == "WString32"@[4]);
    lemma_differ("WString32"@.skip(4), "Array"@, 0);
    assert(type_width("WString32"@) == 64);
    assert(!is_array_table("WString32"@));
    lemma_plain_row("WString32"@, row);
}

proof fn lemma_row_size_wstring64(row: MetaRow)
    ensures
        entry_size_spec("WString64"@, row) == Ok::<(int, bool), Seq<char>>((136, true)),
{
    reveal_strlit("Array");
    reveal_strlit("Binary");
    reveal_strlit("BinaryArray");
    reveal_strlit("BoolArray");
    reveal_strlit("EnumArray");
    reveal_strlit("FloatArray");
    reveal_strlit("Int64");
    reveal_strlit("IntArray");
    reveal_strlit("String16");
    reveal_strlit("String32");
    reveal_strlit("String64");
    reveal_strlit("UInt64");
    reveal_strlit("UIntArray");
    reveal_strlit("Vector2");
    reveal_strlit("Vector3");
    reveal_strlit("WString16");
    reveal_strlit("WString32");
    reveal_strlit("WString64");
    assert("WString64"@[7] == '6' && "WString16"@[7] == '1');
    lemma_differ("WString64"@, "WString16"@, 7);
    assert("WString64"@[7] == '6' && "WString32"@[7] == '3');
    lemma_differ("WString64"@, "WString32"@, 7);
    assert("WString64"@[0] == 'W' && "BoolArray"@[0] == 'B');
    lemma_differ("WString64"@, "BoolArray"@, 0);
    assert("WString64"@[0] == 'W' && "UIntArray"@[0] == 'U');
    lemma_differ("WString64"@, "UIntArray"@, 0);
    assert("WString64"@[0] == 'W' && "EnumArray"@[0] == 'E');
    lemma_differ("WString64"@, "EnumArray"@, 0);
    assert("WString64"@[4] == 'i' && "Array"@[0] == 'A');
    assert("WString64"@.skip(4)[0] == "WString64"@[4]);
    lemma_differ("WString64"@.skip(4), "Array"@, 0);
    assert(type_width("WString64"@) == 128);
    assert(!is_array_table("WString64"@));
    lemma_plain_row("WString64"@, row);
}

proof fn lemma_row_size_bool(row: MetaRow)
    ensures
        entry_size_spec("Bool"@, row) == Ok::<(int, bool), Seq<char>>((8, true)),
{
    reveal_strlit("Array");
    reveal_strlit("Binary");
    reveal_strlit("BinaryArray");
    reveal_strlit("Bool");
    reveal_strlit("BoolArray");
    reveal_strlit("EnumArray");
    reveal_strlit("FloatArray");
    reveal_strlit("Int64");
    reveal_strlit("IntArray");
    reveal_strlit("String16");
    reveal_strlit("String32");
    reveal_strlit("String64");
    reveal_strlit("UInt64");
    reveal_strlit("UIntArray");
    reveal_strlit("Vector2");
    reveal_strlit("Vector3");
    reveal_strlit("WString16");
    reveal_strlit("WString32");
    reveal_strlit("WString64");

    assert(type_width("Bool"@) == 0);
    assert(!is_array_table("Bool"@));
    lemma_plain_row("Bool"@, row);
}

proof fn lemma_row_size_bool64bitkey(row: MetaRow)
    ensures
        entry_size_spec("Bool64bitKey"@, row) == Ok::<(int, bool), Seq<char>>((8, true)),
{
    reveal_strlit("Array");
    reveal_strlit("Binary");
    reveal_strlit("BinaryArray");
    reveal_strlit("Bool64bitKey");
    reveal_strlit("BoolArray");
    reveal_strlit("EnumArray");
    reveal_strlit("FloatArray");
    reveal_strlit("Int64");
    reveal_strlit("IntArray");
    reveal_strlit("String16");
    reveal_strlit("String32");
    reveal_strlit("String64");
    reveal_strlit("UInt64");
    reveal_strlit("UIntArray");
    reveal_strlit("Vector2");
    reveal_strlit("Vector3");
    reveal_strlit("WString16");
    reveal_strlit("WString32");
    reveal_strlit("WString64");
    assert("Bool64bitKey"@[7] == 'i' && "Array"@[0] == 'A');
    assert("Bool64bitKey"@.skip(7)[0] == "Bool64bitKey"@[7]);
    lemma_differ("Bool64bitKey"@.skip(7), "Array"@, 0);
    assert(type_width("Bool64bitKey"@) == 0);
    assert(!is_array_table("Bool64bitKey"@));
    lemma_plain_row("Bool64bitKey"@, row);
}

proof fn lemma_row_size_int(row: MetaRow)
    ensures
        entry_size_spec("Int"@, row) == Ok::<(int, bool), Seq<char>>((8, true)),
{
    reveal_strlit("Array");
    reveal_strlit("Binary");
    reveal_strlit("BinaryArray");
    reveal_strlit("BoolArray");
    reveal_strlit("EnumArray");
    reveal_strlit("FloatArray");
    reveal_strlit("Int");
    reveal_strlit("Int64");
    reveal_strlit("IntArray");
    reveal_strlit("String16");
    reveal_strlit("String32");
    reveal_strlit("String64");
    reveal_strlit("UInt64");
    reveal_strlit("UIntArray");
    reveal_strlit("Vector2");
    reveal_strlit("Vector3");
    reveal_strlit("WString16");
    reveal_strlit("WString32");
    reveal_strlit("WString64");

    assert(type_width("Int"@) == 0);
    assert(!is_array_table("Int"@));
    lemma_plain_row("Int"@, row);
}

proof fn lemma_row_size_uint(row: MetaRow)
    ensures
        entry_size_spec("UInt"@, row) == Ok::<(int, bool), Seq<char>>((8, true)),
{
    reveal_strlit("Array");
    reveal_strlit("Binary");
    reveal_strlit("BinaryArray");
    reveal_strlit("BoolArray");
    reveal_strlit("EnumArray");
    reveal_strlit("FloatArray");
    reveal_strlit("Int64");
    reveal_strlit("IntArray");
    reveal_strlit("String16");
    reveal_strlit("String32");
    reveal_strlit("String64");
    reveal_strlit("UInt");
    reveal_strlit("UInt64");
    reveal_strlit("UIntArray");
    reveal_strlit("Vector2");
    reveal_strlit("Vector3");
    reveal_strlit("WString16");
    reveal_strlit("WString32");
    reveal_strlit("WString64");

    assert(type_width("UInt"@) == 0);
    assert(!is_array_table("UInt"@));
    lemma_plain_row("UInt"@, row);
}

proof fn lemma_row_size_float(row: MetaRow)
    ensures
        entry_size_spec("Float"@, row) == Ok::<(int, bool), Seq<char>>((8, true)),
{
    reveal_strlit("Array");
    reveal_strlit("Binary");
    reveal_strlit("BinaryArray");
    reveal_strlit("BoolArray");
    reveal_strlit("EnumArray");
    reveal_strlit("Float");
    reveal_strlit("FloatArray");
    reveal_strlit("Int64");
    reveal_strlit("IntArray");
    reveal_strlit("String16");
    reveal_strlit("String32");
    reveal_strlit("String64");
    reveal_strlit("UInt64");
    reveal_strlit("UIntArray");
    reveal_strlit("Vector2");
    reveal_strlit("Vector3");
    reveal_strlit("WString16");
    reveal_strlit("WString32");
    reveal_strlit("WString64");
    assert("Float"@[0] == 'F' && "Int64"@[0] == 'I');
    lemma_differ("Float"@, "Int64"@, 0);
    assert("Float"@[0] == 'F' && "Int64"@[0] == 'I');
    lemma_differ("Float"@, "Int64"@, 0);
    assert("Float"@[0] == 'F' && "Array"@[0] == 'A');
    assert("Float"@.skip(0)[0] == "Float"@[0]);
    lemma_differ("Float"@.skip(0), "Array"@, 0);
    assert(type_width("Float"@) == 0);
    assert(!is_array_table("Float"@));
    lemma_plain_row("Float"@, row);
}

proof fn lemma_row_size_enum(row: MetaRow)
    ensures
        entry_size_spec("Enum"@, row) == Ok::<(int, bool), Seq<char>>((8, true)),
{
    reveal_strlit("Array");
    reveal_strlit("Binary");
    reveal_strlit("BinaryArray");
    reveal_strlit("BoolArray");
    reveal_strlit("Enum");
    reveal_strlit("EnumArray");
    reveal_strlit("FloatArray");
    reveal_strlit("Int64");
    reveal_strlit("IntArray");
    reveal_strlit("String16");
    reveal_strlit("String32");
    reveal_strlit("String64");
    reveal_strlit("UInt64");
    reveal_strlit("UIntArray");
    reveal_strlit("Vector2");
    reveal_strlit("Vector3");
    reveal_strlit("WString16");
    reveal_strlit("WString32");
    reveal_strlit("WString64");

    assert(type_width("Enum"@) == 0);
    assert(!is_array_table("Enum"@));
    lemma_plain_row("Enum"@, row);
}

/// The bytes of a row of a value table that is no array: 8, and the width
/// of its value: 8 for UInt64, Int64 and Vector2, 12 for Vector3, 16 for
/// String16, 32 for String32 and WString16, 64 for String64 and WString32,
/// 128 for WString64, none for the flags and numbers of 32 bits.
pub proof fn lemma_value_row_sizes(row: MetaRow)
    ensures
        entry_size_spec("UInt64"@, row) == Ok::<(int, bool), Seq<char>>((16, true)),
        entry_size_spec("Int64"@, row) == Ok::<(int, bool), Seq<char>>((16, true)),
        entry_size_spec("Vector2"@, row) == Ok::<(int, bool), Seq<char>>((16, true)),
        entry_size_spec("Vector3"@, row) == Ok::<(int, bool), Seq<char>>((20, true)),
        entry_size_spec("String16"@, row) == Ok::<(int, bool), Seq<char>>((24, true)),
        entry_size_spec("String32"@, row) == Ok::<(int, bool), Seq<char>>((40, true)),
        entry_size_spec("WString16"@, row) == Ok::<(int, bool), Seq<char>>((40, true)),
        entry_size_spec("String64"@, row) == Ok::<(int, bool), Seq<char>>((72, true)),
        entry_size_spec("WString32"@, row) == Ok::<(int, bool), Seq<char>>((72, true)),
        entry_size_spec("WString64"@, row) == Ok::<(int, bool), Seq<char>>((136, true)),
        entry_size_spec("Bool"@, row) == Ok::<(int, bool), Seq<char>>((8, true)),
        entry_size_spec("Bool64bitKey"@, row) == Ok::<(int, bool), Seq<char>>((8, true)),
        entry_size_spec("Int"@, row) == Ok::<(int, bool), Seq<char>>((8, true)),
        entry_size_spec("UInt"@, row) == Ok::<(int, bool), Seq<char>>((8, true)),
        entry_size_spec("Float"@, row) == Ok::<(int, bool), Seq<char>>((8, true)),
        entry_size_spec("Enum"@, row) == Ok::<(int, bool), Seq<char>>((8, true)),
{
    lemma_row_size_uint64(row);
    lemma_row_size_int64(row);
    lemma_row_size_vector2(row);
    lemma_row_size_vector3(row);
    lemma_row_size_string16(row);
    lemma_row_size_string32(row);
    lemma_row_size_wstring16(row);
    lemma_row_size_string64(row);
    lemma_row_size_wstring32(row);
    lemma_row_size_wstring64(row);
    lemma_row_size_bool(row);
    lemma_row_size_bool64bitkey(row);
    lemma_row_size_int(row);
    lemma_row_size_uint(row);
    lemma_row_size_float(row);
    lemma_row_size_enum(row);
}

/// A row of an array table of plain values takes 12 bytes and its count of
/// values' widths.
proof fn lemma_array_row(t: Seq<char>, tn: Seq<char>, row: MetaRow)
    requires
        is_array_table(t),
        t.take(t.len() - 5) == tn,
        t != "BoolArray"@,
        t != "IntArray"@,
        t != "FloatArray"@,
        t != "UIntArray"@,
        t != "EnumArray"@,
        t != "Binary"@,
        t != "BinaryArray"@,
    ensures
        match array_count_spec(t, row) {
            Ok(c) => entry_size_spec(t, row) matches Ok((e, _)) && e == 12 + c * type_width(tn),
            Err(m) => entry_size_spec(t, row) == Err::<(int, bool), Seq<char>>(m),
        },
{
}

proof fn lemma_array_size_int64(row: MetaRow)
    ensures
        match array_count_spec("Int64Array"@, row) {
            Ok(c) => entry_size_spec("Int64Array"@, row) matches Ok((e, _)) && e == 12 + c * 8,
            Err(m) => entry_size_spec("Int64Array"@, row) == Err::<(int, bool), Seq<char>>(m),
        },
{
    reveal_strlit("Array");
    reveal_strlit("Binary");
    reveal_strlit("BinaryArray");
    reveal_strlit("BoolArray");
    reveal_strlit("EnumArray");
    reveal_strlit("FloatArray");
    reveal_strlit("Int64");
    reveal_strlit("Int64Array");
    reveal_strlit("IntArray");
    reveal_strlit("UInt64");
    reveal_strlit("UIntArray");
    assert("Int64Array"@[0] == 'I' && "FloatArray"@[0] == 'F');
    lemma_differ("Int64Array"@, "FloatArray"@, 0);
    assert("Int64Array"@.skip(5) =~= "Array"@);
    assert("Int64Array"@.take(5) =~= "Int64"@);
    assert(is_array_table("Int64Array"@));
    assert(type_width("Int64"@) == 8);
    lemma_array_row("Int64Array"@, "Int64"@, row);
}

proof fn lemma_array_size_uint64(row: MetaRow)
    ensures
        match array_count_spec("UInt64Array"@, row) {
            Ok(c) => entry_size_spec("UInt64Array"@, row) matches Ok((e, _)) && e == 12 + c * 8,
            Err(m) => entry_size_spec("UInt64Array"@, row) == Err::<(int, bool), Seq<char>>(m),
        },
{
    reveal_strlit("Array");
    reveal_strlit("Binary");
    reveal_strlit("BinaryArray");
    reveal_strlit("BoolArray");
    reveal_strlit("EnumArray");
    reveal_strlit("FloatArray");
    reveal_strlit("IntArray");
    reveal_strlit("UInt64");
    reveal_strlit("UInt64Array");
    reveal_strlit("UIntArray");
    assert("UInt64Array"@[0] == 'U' && "BinaryArray"@[0] == 'B');
    lemma_differ("UInt64Array"@, "BinaryArray"@, 0);
    assert("UInt64Array"@.skip(6) =~= "Array"@);
    assert("UInt64Array"@.take(6) =~= "UInt64"@);
    assert(is_array_table("UInt64Array"@));
    assert(type_width("UInt64"@) == 8);
    lemma_array_row("UInt64Array"@, "UInt64"@, row);
}

proof fn lemma_array_size_vector2(row: MetaRow)
    ensures
        match array_count_spec("Vector2Array"@, row) {
            Ok(c) => entry_size_spec("Vector2Array"@, row) matches Ok((e, _)) && e == 12 + c * 8,
            Err(m) => entry_size_spec("Vector2Array"@, row) == Err::<(int, bool), Seq<char>>(m),
        },
{
    reveal_strlit("Array");
    reveal_strlit("Binary");
    reveal_strlit("BinaryArray");
    reveal_strlit("BoolArray");
    reveal_strlit("EnumArray");
    reveal_strlit("FloatArray");
    reveal_strlit("Int64");
    reveal_strlit("IntArray");
    reveal_strlit("UInt64");
    reveal_strlit("UIntArray");
    reveal_strlit("Vector2");
    reveal_strlit("Vector2Array");
    assert("Vector2Array"@.skip(7) =~= "Array"@);
    assert("Vector2Array"@.take(7) =~= "Vector2"@);
    assert(is_array_table("Vector2Array"@));
    assert(type_width("Vector2"@) == 8);
    lemma_array_row("Vector2Array"@, "Vector2"@, row);
}

proof fn lemma_array_size_vector3(row: MetaRow)
    ensures
        match array_count_spec("Vector3Array"@, row) {
            Ok(c) => entry_size_spec("Vector3Array"@, row) matches Ok((e, _)) && e == 12 + c * 12,
            Err(m) => entry_size_spec("Vector3Array"@, row) == Err::<(int, bool), Seq<char>>(m),
        },
{
    reveal_strlit("Array");
    reveal_strlit("Binary");
    reveal_strlit("BinaryArray");
    reveal_strlit("BoolArray");
    reveal_strlit("EnumArray");
    reveal_strlit("FloatArray");
    reveal_strlit("Int64");
    reveal_strlit("IntArray");
    reveal_strlit("UInt64");
    reveal_strlit("UIntArray");
    reveal_strlit("Vector2");
    reveal_strlit("Vector3");
    reveal_strlit("Vector3Array");
    assert("Vector3"@[6] == '3' && "Vector2"@[6] == '2');
    lemma_differ("Vector3"@, "Vector2"@, 6);
    assert("Vector3Array"@.skip(7) =~= "Array"@);
    assert("Vector3Array"@.take(7) =~= "Vector3"@);
    assert(is_array_table("Vector3Array"@));
    assert(type_width("Vector3"@) == 12);
    lemma_array_row("Vector3Array"@, "Vector3"@, row);
}

proof fn lemma_array_size_string16(row: MetaRow)
    ensures
        match array_count_spec("String16Array"@, row) {
            Ok(c) => entry_size_spec("String16Array"@, row) matches Ok((e, _)) && e == 12 + c * 16,
            Err(m) => entry_size_spec("String16Array"@, row) == Err::<(int, bool), Seq<char>>(m),
        },
{
    reveal_strlit("Array");
    reveal_strlit("Binary");
    reveal_strlit("BinaryArray");
    reveal_strlit("BoolArray");
    reveal_strlit("EnumArray");
    reveal_strlit("FloatArray");
    reveal_strlit("Int64");
    reveal_strlit("IntArray");
    reveal_strlit("String16");
    reveal_strlit("String16Array");
    reveal_strlit("UInt64");
    reveal_strlit("UIntArray");
    reveal_strlit("Vector2");
    reveal_strlit("Vector3");
    assert("String16Array"@.skip(8) =~= "Array"@);
    assert("String16Array"@.take(8) =~= "String16"@);
    assert(is_array_table("String16Array"@));
    assert(type_width("String16"@) == 16);
    lemma_array_row("String16Array"@, "String16"@, row);
}

proof fn lemma_array_size_string32(row: MetaRow)
    ensures
        match array_count_spec("String32Array"@, row) {
            Ok(c) => entry_size_spec("String32Array"@, row) matches Ok((e, _)) && e == 12 + c * 32,
            Err(m) => entry_size_spec("String32Array"@, row) == Err::<(int, bool), Seq<char>>(m),
        },
{
    reveal_strlit("Array");
    reveal_strlit("Binary");
    reveal_strlit("BinaryArray");
    reveal_strlit("BoolArray");
    reveal_strlit("EnumArray");
    reveal_strlit("FloatArray");
    reveal_strlit("Int64");
    reveal_strlit("IntArray");
    reveal_strlit("String16");
    reveal_strlit("String32");
    reveal_strlit("String32Array");
    reveal_strlit("UInt64");
    reveal_strlit("UIntArray");
    reveal_strlit("Vector2");
    reveal_strlit("Vector3");
    assert("String32"@[6] == '3' && "String16"@[6] == '1');
    lemma_differ("String32"@, "String16"@, 6);
    assert("String32Array"@.skip(8) =~= "Array"@);
    assert("String32Array"@.take(8) =~= "String32"@);
    assert(is_array_table("String32Array"@));
    assert(type_width("String32"@) == 32);
    lemma_array_row("String32Array"@, "String32"@, row);
}

proof fn lemma_array_size_wstring16(row: MetaRow)
    ensures
        match array_count_spec("WString16Array"@, row) {
            Ok(c) => entry_size_spec("WString16Array"@, row) matches Ok((e, _)) && e == 12 + c * 32,
            Err(m) => entry_size_spec("WString16Array"@, row) == Err::<(int, bool), Seq<char>>(m),
        },
{
    reveal_strlit("Array");
    reveal_strlit("Binary");
    reveal_strlit("BinaryArray");
    reveal_strlit("BoolArray");
    reveal_strlit("EnumArray");
    reveal_strlit("FloatArray");
    reveal_strlit("Int64");
    reveal_strlit("IntArray");
    reveal_strlit("String16");
    reveal_strlit("String32");
    reveal_strlit("UInt64");
    reveal_strlit("UIntArray");
    reveal_strlit("Vector2");
    reveal_strlit("Vector3");
    reveal_strlit("WString16");
    reveal_strlit("WString16Array");
    assert("WString16Array"@.skip(9) =~= "Array"@);
    assert("WString16Array"@.take(9) =~= "WString16"@);
    assert(is_array_table("WString16Array"@));
    assert(type_width("WString16"@) == 32);
    lemma_array_row("WString16Array"@, "WString16"@, row);
}

proof fn lemma_array_size_string64(row: MetaRow)
    ensures
        match array_count_spec("String64Array"@, row) {
            Ok(c) => entry_size_spec("String64Array"@, row) matches Ok((e, _)) && e == 12 + c * 64,
            Err(m) => entry_size_spec("String64Array"@, row) == Err::<(int, bool), Seq<char>>(m),
        },
{
    reveal_strlit("Array");
    reveal_strlit("Binary");
    reveal_strlit("BinaryArray");
    reveal_strlit("BoolArray");
    reveal_strlit("EnumArray");
    reveal_strlit("FloatArray");
    reveal_strlit("Int64");
    reveal_strlit("IntArray");
    reveal_strlit("String16");
    reveal_strlit("String32");
    reveal_strlit("String64");
    reveal_strlit("String64Array");
    reveal_strlit("UInt64");
    reveal_strlit("UIntArray");
    reveal_strlit("Vector2");
    reveal_strlit("Vector3");
    reveal_strlit("WString16");
    assert("String64"@[6] == '6' && "String16"@[6] == '1');
    lemma_differ("String64"@, "String16"@, 6);
    assert("String64"@[6] == '6' && "String32"@[6] == '3');
    lemma_differ("String64"@, "String32"@, 6);
    assert("String64Array"@.skip(8) =~= "Array"@);
    assert("String64Array"@.take(8) =~= "String64"@);
    assert(is_array_table("String64Array"@));
    assert(type_width("String64"@) == 64);
    lemma_array_row("String64Array"@, "String64"@, row);
}

proof fn lemma_array_size_wstring32(row: MetaRow)
    ensures
        match array_count_spec("WString32Array"@, row) {
            Ok(c) => entry_size_spec("WString32Array"@, row) matches Ok((e, _)) && e == 12 + c * 64,
            Err(m) => entry_size_spec("WString32Array"@, row) == Err::<(int, bool), Seq<char>>(m),
        },
{
    reveal_strlit("Array");
    reveal_strlit("Binary");
    reveal_strlit("BinaryArray");
    reveal_strlit("BoolArray");
    reveal_strlit("EnumArray");
    reveal_strlit("FloatArray");
    reveal_strlit("Int64");
    reveal_strlit("IntArray");
    reveal_strlit("String16");
    reveal_strlit("String32");
    reveal_strlit("String64");
    reveal_strlit("UInt64");
    reveal_strlit("UIntArray");
    reveal_strlit("Vector2");
    reveal_strlit("Vector3");
    reveal_strlit("WString16");
    reveal_strlit("WString32");
    reveal_strlit("WString32Array");
    assert("WString32"@[7] == '3' && "WString16"@[7] == '1');
    lemma_differ("WString32"@, "WString16"@, 7);
    assert("WString32Array"@.skip(9) =~= "Array"@);
    assert("WString32Array"@.take(9) =~= "WString32"@);
    assert(is_array_table("WString32Array"@));
    assert(type_width("WString32"@) == 64);
    lemma_array_row("WString32Array"@, "WString32"@, row);
}

proof fn lemma_array_size_wstring64(row: MetaRow)
    ensures
        match array_count_spec("WString64Array"@, row) {
            Ok(c) => entry_size_spec("WString64Array"@, row) matches Ok((e, _)) && e == 12 + c * 128,
            Err(m) => entry_size_spec("WString64Array"@, row) == Err::<(int, bool), Seq<char>>(m),
        },
{
    reveal_strlit("Array");
    reveal_strlit("Binary");
    reveal_strlit("BinaryArray");
    reveal_strlit("BoolArray");
    reveal_strlit("EnumArray");
    reveal_strlit("FloatArray");
    reveal_strlit("Int64");
    reveal_strlit("IntArray");
    reveal_strlit("String16");
    reveal_strlit("String32");
    reveal_strlit("String64");
    reveal_strlit("UInt64");
    reveal_strlit("UIntArray");
    reveal_strlit("Vector2");
    reveal_strlit("Vector3");
    reveal_strlit("WString16");
    reveal_strlit("WString32");
    reveal_strlit("WString64");
    reveal_strlit("WString64Array");
    assert("WString64"@[7] == '6' && "WString16"@[7] == '1');
    lemma_differ("WString64"@, "WString16"@, 7);
    assert("WString64"@[7] == '6' && "WString32"@[7] == '3');
    lemma_differ("WString64"@, "WString32"@, 7);
    assert("WString64Array"@.skip(9) =~= "Array"@);
    assert("WString64Array"@.take(9) =~= "WString64"@);
    assert(is_array_table("WString64Array"@));
    assert(type_width("WString64"@) == 128);
    lemma_array_row("WString64Array"@, "WString64"@, row);
}

/// The bytes of a row of an array table of values: 12, and the count of its
/// values times their width (8 for UInt64, Int64 and Vector2, 12 for Vector3,
/// 16 for String16, 32 for String32 and WString16, 64 for String64 and
/// WString32, 128 for WString64); a count that cannot be read stops the
/// sizes.
pub proof fn lemma_value_array_sizes(row: MetaRow)
    ensures
        match array_count_spec("Int64Array"@, row) {
            Ok(c) => entry_size_spec("Int64Array"@, row) matches Ok((e, _)) && e == 12 + c * 8,
            Err(m) => entry_size_spec("Int64Array"@, row) == Err::<(int, bool), Seq<char>>(m),
        },
        match array_count_spec("UInt64Array"@, row) {
            Ok(c) => entry_size_spec("UInt64Array"@, row) matches Ok((e, _)) && e == 12 + c * 8,
            Err(m) => entry_size_spec("UInt64Array"@, row) == Err::<(int, bool), Seq<char>>(m),
        },
        match array_count_spec("Vector2Array"@, row) {
            Ok(c) => entry_size_spec("Vector2Array"@, row) matches Ok((e, _)) && e == 12 + c * 8,
            Err(m) => entry_size_spec("Vector2Array"@, row) == Err::<(int, bool), Seq<char>>(m),
        },
        match array_count_spec("Vector3Array"@, row) {
            Ok(c) => entry_size_spec("Vector3Array"@, row) matches Ok((e, _)) && e == 12 + c * 12,
            Err(m) => entry_size_spec("Vector3Array"@, row) == Err::<(int, bool), Seq<char>>(m),
        },
        match array_count_spec("String16Array"@, row) {
            Ok(c) => entry_size_spec("String16Array"@, row) matches Ok((e, _)) && e == 12 + c * 16,
            Err(m) => entry_size_spec("String16Array"@, row) == Err::<(int, bool), Seq<char>>(m),
        },
        match array_count_spec("String32Array"@, row) {
            Ok(c) => entry_size_spec("String32Array"@, row) matches Ok((e, _)) && e == 12 + c * 32,
            Err(m) => entry_size_spec("String32Array"@, row) == Err::<(int, bool), Seq<char>>(m),
        },
        match array_count_spec("WString16Array"@, row) {
            Ok(c) => entry_size_spec("WString16Array"@, row) matches Ok((e, _)) && e == 12 + c * 32,
            Err(m) => entry_size_spec("WString16Array"@, row) == Err::<(int, bool), Seq<char>>(m),
        },
        match array_count_spec("String64Array"@, row) {
            Ok(c) => entry_size_spec("String64Array"@, row) matches Ok((e, _)) && e == 12 + c * 64,
            Err(m) => entry_size_spec("String64Array"@, row) == Err::<(int, bool), Seq<char>>(m),
        },
        match array_count_spec("WString32Array"@, row) {
            Ok(c) => entry_size_spec("WString32Array"@, row) matches Ok((e, _)) && e == 12 + c * 64,
            Err(m) => entry_size_spec("WString32Array"@, row) == Err::<(int, bool), Seq<char>>(m),
        },
        match array_count_spec("WString64Array"@, row) {
            Ok(c) => entry_size_spec("WString64Array"@, row) matches Ok((e, _)) && e == 12 + c * 128,
            Err(m) => entry_size_spec("WString64Array"@, row) == Err::<(int, bool), Seq<char>>(m),
        },
{
    lemma_array_size_int64(row);
    lemma_array_size_uint64(row);
    lemma_array_size_vector2(row);
    lemma_array_size_vector3(row);
    lemma_array_size_string16(row);
    lemma_array_size_string32(row);
    lemma_array_size_wstring16(row);
    lemma_array_size_string64(row);
    lemma_array_size_wstring32(row);
    lemma_array_size_wstring64(row);
}

proof fn lemma_array_size_intarray(row: MetaRow)
    ensures
        match array_count_spec("IntArray"@, row) {
            Ok(c) => entry_size_spec("IntArray"@, row) matches Ok((e, _)) && e == 12 + c * 4,
            Err(m) => entry_size_spec("IntArray"@, row) == Err::<(int, bool), Seq<char>>(m),
        },
{
    reveal_strlit("Array");
    reveal_strlit("BoolArray");
    reveal_strlit("IntArray");
    assert("IntArray"@.skip(3) =~= "Array"@);
    assert(is_array_table("IntArray"@));
}

proof fn lemma_array_size_floatarray(row: MetaRow)
    ensures
        match array_count_spec("FloatArray"@, row) {
            Ok(c) => entry_size_spec("FloatArray"@, row) matches Ok((e, _)) && e == 12 + c * 4,
            Err(m) => entry_size_spec("FloatArray"@, row) == Err::<(int, bool), Seq<char>>(m),
        },
{
    reveal_strlit("Array");
    reveal_strlit("BoolArray");
    reveal_strlit("FloatArray");
    reveal_strlit("IntArray");
    assert("FloatArray"@.skip(5) =~= "Array"@);
    assert(is_array_table("FloatArray"@));
}

proof fn lemma_array_size_uintarray(row: MetaRow)
    ensures
        match array_count_spec("UIntArray"@, row) {
            Ok(c) => entry_size_spec("UIntArray"@, row) matches Ok((e, _)) && e == 12 + c * 4,
            Err(m) => entry_size_spec("UIntArray"@, row) == Err::<(int, bool), Seq<char>>(m),
        },
{
    reveal_strlit("Array");
    reveal_strlit("BoolArray");
    reveal_strlit("FloatArray");
    reveal_strlit("IntArray");
    reveal_strlit("UIntArray");
    assert("UIntArray"@[0] == 'U' && "BoolArray"@[0] == 'B');
    lemma_differ("UIntArray"@, "BoolArray"@, 0);
    assert("UIntArray"@.skip(4) =~= "Array"@);
    assert(is_array_table("UIntArray"@));
}

proof fn lemma_array_size_enumarray(row: MetaRow)
    ensures
        match array_count_spec("EnumArray"@, row) {
            Ok(c) => entry_size_spec("EnumArray"@, row) matches Ok((e, _)) && e == 12 + c * 4,
            Err(m) => entry_size_spec("EnumArray"@, row) == Err::<(int, bool), Seq<char>>(m),
        },
{
    reveal_strlit("Array");
    reveal_strlit("BoolArray");
    reveal_strlit("EnumArray");
    reveal_strlit("FloatArray");
    reveal_strlit("IntArray");
    reveal_strlit("UIntArray");
    assert("EnumArray"@[0] == 'E' && "BoolArray"@[0] == 'B');
    lemma_differ("EnumArray"@, "BoolArray"@, 0);
    assert("EnumArray"@[0] == 'E' && "UIntArray"@[0] == 'U');
    lemma_differ("EnumArray"@, "UIntArray"@, 0);
    assert("EnumArray"@.skip(4) =~= "Array"@);
    assert(is_array_table("EnumArray"@));
}

proof fn lemma_array_size_boolarray(row: MetaRow)
    ensures
        match array_count_spec("BoolArray"@, row) {
            Ok(c) => entry_size_spec("BoolArray"@, row) matches Ok((e, _)) && (c >= 0 ==> {
                let b = (c + 7) / 8;
                &&& (e - 12) % 4 == 0
                &&& e - 12 >= b
                &&& e - 12 >= 4
                &&& e - 12 < (if b > 4 {
                    b
                } else {
                    4
                }) + 4
            }),
            Err(m) => entry_size_spec("BoolArray"@, row) == Err::<(int, bool), Seq<char>>(m),
        },
{
    reveal_strlit("BoolArray");
    reveal_strlit("Array");
    assert("BoolArray"@.skip(4) =~= "Array"@);
    assert(is_array_table("BoolArray"@));
}

proof fn lemma_size_binary(row: MetaRow)
    ensures
        entry_size_spec("Binary"@, row) matches Ok((e, _)) && e == 12 + match row.binary_default {
            Some(d) => (d as i32) as int,
            None => 0,
        },
{
    reveal_strlit("Array");
    reveal_strlit("Binary");
    reveal_strlit("BoolArray");
    reveal_strlit("EnumArray");
    reveal_strlit("FloatArray");
    reveal_strlit("IntArray");
    reveal_strlit("UIntArray");
    assert("Binary"@.skip(1)[0] == 'i' && "Array"@[0] == 'A');
    lemma_differ("Binary"@.skip(1), "Array"@, 0);
    assert(!is_array_table("Binary"@));
    match row.binary_default {
        Some(d) => {
            let x = (d as i32) as int;
            assert(1 * x == x);
            assert(1int * 4 == 4);
        },
        None => {},
    }
}

proof fn lemma_size_binary_array(row: MetaRow)
    ensures
        match array_count_spec("BinaryArray"@, row) {
            Ok(c) => entry_size_spec("BinaryArray"@, row) matches Ok((e, _)) && e == 12 + 4 * c + c * match row.binary_default {
                Some(d) => (d as i32) as int,
                None => 0,
            },
            Err(m) => entry_size_spec("BinaryArray"@, row) == Err::<(int, bool), Seq<char>>(m),
        },
{
    reveal_strlit("Array");
    reveal_strlit("Binary");
    reveal_strlit("BinaryArray");
    reveal_strlit("BoolArray");
    reveal_strlit("EnumArray");
    reveal_strlit("FloatArray");
    reveal_strlit("IntArray");
    reveal_strlit("UIntArray");
    assert("BinaryArray"@.skip(6) =~= "Array"@);
    assert(is_array_table("BinaryArray"@));
}

/// The bytes of the rows of the other tables: 12 and four bytes a value for
/// arrays of 32-bit numbers; for flag arrays, 12 and a whole number of
/// 4-byte words, at least one, holding a bit a flag; for binaries, 8, four
/// bytes a value and the binary's size a value.
pub proof fn lemma_other_row_sizes(row: MetaRow)
    ensures
        match array_count_spec("IntArray"@, row) {
            Ok(c) => entry_size_spec("IntArray"@, row) matches Ok((e, _)) && e == 12 + c * 4,
            Err(m) => entry_size_spec("IntArray"@, row) == Err::<(int, bool), Seq<char>>(m),
        },
        match array_count_spec("FloatArray"@, row) {
            Ok(c) => entry_size_spec("FloatArray"@, row) matches Ok((e, _)) && e == 12 + c * 4,
            Err(m) => entry_size_spec("FloatArray"@, row) == Err::<(int, bool), Seq<char>>(m),
        },
        match array_count_spec("UIntArray"@, row) {
            Ok(c) => entry_size_spec("UIntArray"@, row) matches Ok((e, _)) && e == 12 + c * 4,
            Err(m) => entry_size_spec("UIntArray"@, row) == Err::<(int, bool), Seq<char>>(m),
        },
        match array_count_spec("EnumArray"@, row) {
            Ok(c) => entry_size_spec("EnumArray"@, row) matches Ok((e, _)) && e == 12 + c * 4,
            Err(m) => entry_size_spec("EnumArray"@, row) == Err::<(int, bool), Seq<char>>(m),
        },
        match array_count_spec("BoolArray"@, row) {
            Ok(c) => entry_size_spec("BoolArray"@, row) matches Ok((e, _)) && (c >= 0 ==> {
                let b = (c + 7) / 8;
                &&& (e - 12) % 4 == 0
                &&& e - 12 >= b
                &&& e - 12 >= 4
                &&& e - 12 < (if b > 4 {
                    b
                } else {
                    4
                }) + 4
            }),
            Err(m) => entry_size_spec("BoolArray"@, row) == Err::<(int, bool), Seq<char>>(m),
        },
        entry_size_spec("Binary"@, row) matches Ok((e, _)) && e == 12 + match row.binary_default {
            Some(d) => (d as i32) as int,
            None => 0,
        },
        match array_count_spec("BinaryArray"@, row) {
            Ok(c) => entry_size_spec("BinaryArray"@, row) matches Ok((e, _)) && e == 12 + 4 * c + c * match row.binary_default {
                Some(d) => (d as i32) as int,
                None => 0,
            },
            Err(m) => entry_size_spec("BinaryArray"@, row) == Err::<(int, bool), Seq<char>>(m),
        },
{
    lemma_array_size_intarray(row);
    lemma_array_size_floatarray(row);
    lemma_array_size_uintarray(row);
    lemma_array_size_enumarray(row);
    lemma_array_size_boolarray(row);
    lemma_size_binary(row);
    lemma_size_binary_array(row);
}

/// How a row counts: in its save file `i`, a row of a table other than the
/// 64-bit flag table adds 8 to the file's offsets and to the offset total,
/// and its bytes to the file's size and the size total; a 64-bit flag adds
/// its bytes (and 8 for the table's key, the first time the file gets
/// one) to the file's size and the total only. A row in no save file adds
/// to the totals only (the 64-bit flags nothing). Nothing else changes; a
/// save file past the seventh stops the count.
pub proof fn lemma_row_counts(dirs: Seq<Option<String>>, t: Seq<char>, row: MetaRow, st: MetaState, i: i32, e: int, ok: bool)
    requires
        st.err is None,
        st.offsets.len() == 7,
        st.sizes.len() == 7,
        st.has_key.len() == 7,
        row.save_file_index == Some(i),
        entry_size_spec(t, row) == Ok::<(int, bool), Seq<char>>((e, ok)),
    ensures
        ({
            let n = meta_step(dirs, t, row, st);
            let bool64 = t == "Bool64bitKey"@;
            &&& no_directory(dirs, i as int) && !bool64 ==> n.all_offset == st.all_offset + 8 && n.all_size
                == st.all_size + e && n.offsets == st.offsets && n.sizes == st.sizes && n.err is None
            &&& no_directory(dirs, i as int) && bool64 ==> n == st
            &&& !no_directory(dirs, i as int) && (i < 0 || i >= 7) ==> n.err == Some(out_of_range(i as int))
            &&& !no_directory(dirs, i as int) && 0 <= i < 7 && !bool64 ==> {
                &&& n.offsets == st.offsets.update(i as int, st.offsets[i as int] + 8)
                &&& n.sizes == st.sizes.update(i as int, st.sizes[i as int] + e)
                &&& n.all_offset == st.all_offset + 8
                &&& n.all_size == st.all_size + e
                &&& n.has_key == st.has_key
                &&& n.err is None
            }
            &&& !no_directory(dirs, i as int) && 0 <= i < 7 && bool64 ==> {
                let key: int = if st.has_key[i as int] {
                    0
                } else {
                    8
                };
                &&& n.offsets == st.offsets
                &&& n.sizes == st.sizes.update(i as int, st.sizes[i as int] + key + e)
                &&& n.all_offset == st.all_offset
                &&& n.all_size == st.all_size + key + e
                &&& n.has_key == st.has_key.update(i as int, true)
                &&& n.err is None
            }
        }),
{
    let n = meta_step(dirs, t, row, st);
    if !no_directory(dirs, i as int) && 0 <= i < 7 {
        let slot = i as int;
        if t == "Bool64bitKey"@ {
            if st.has_key[slot] {
                assert(n.sizes =~= st.sizes.update(slot, st.sizes[slot] + 0 + e));
            } else {
                assert(n.sizes =~= st.sizes.update(slot, st.sizes[slot] + 8 + e));
                assert(n.has_key =~= st.has_key.update(slot, true));
            }
        } else {
            assert(n.sizes =~= st.sizes.update(slot, st.sizes[slot] + e));
        }
    }
}

/// A save file's offsets and size get the size of a file's start once it
/// holds anything; the totals start with it.
pub proof fn lemma_sizes_start()
    ensures
        meta_start().all_offset == 0x130 && meta_start().all_size == 0x130,
        forall|i: int| 0 <= i < 7 ==> #[trigger] meta_start().offsets[i] == 0 && meta_start().sizes[i] == 0,
        forall|x: int| x > 0 ==> #[trigger] with_header(x) == x + 0x130,
        forall|x: int| x <= 0 ==> #[trigger] with_header(x) == x,
{
}

} // verus!
