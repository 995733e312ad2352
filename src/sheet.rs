//! Reading the sample sheet's rows and choosing the input files.

use vstd::prelude::*;
use vstd::string::{StrSliceExecFns, StringExecFns};
use crate::classify::Barcode;
use crate::palette::ConfigError;

verus! {

/// Separator of the sample sheet's columns.
pub const COLUMN_SEPARATOR: char = ',';

/// Separator of the two expected indexes in the second column.
pub const INDEX_SEPARATOR: char = '+';

/// The pieces of `s` between the occurrences of `c`, in order: one more
/// piece than there are occurrences, each possibly empty.
pub open spec fn split_text(s: Seq<char>, c: char) -> Seq<Seq<char>>
    decreases s.len(),
{
    if s.len() == 0 {
        seq![Seq::<char>::empty()]
    } else {
        let f = split_text(s.drop_last(), c);
        if s.last() == c {
            f.push(Seq::<char>::empty())
        } else {
            f.update(f.len() - 1, f.last().push(s.last()))
        }
    }
}

/// The row read from a sample sheet line `sample,idx1+idx2,hint1,hint2`,
/// as (idx1, idx2, sample, hint1, hint2): the line is split at its commas,
/// and its second column at `+`. Nothing when the line has fewer than four
/// columns or no `+` in its second one; further columns, and text past a
/// second `+`, are ignored.
pub open spec fn sheet_row(s: Seq<char>) -> Option<(Seq<char>, Seq<char>, Seq<char>, Seq<char>, Seq<char>)> {
    let f = split_text(s, COLUMN_SEPARATOR);
    if f.len() >= 4 && split_text(f[1], INDEX_SEPARATOR).len() >= 2 {
        let z = split_text(f[1], INDEX_SEPARATOR);
        Some((z[0], z[1], f[0], f[2], f[3]))
    } else {
        None
    }
}

/// The view of a palette row.
pub open spec fn row_view(b: Barcode) -> (Seq<char>, Seq<char>, Seq<char>, Seq<char>, Seq<char>) {
    (b.0@, b.1@, b.2@, b.3@, b.4@)
}

/// The views of a list of strings.
pub open spec fn texts(v: Seq<String>) -> Seq<Seq<char>> {
    v.map_values(|x: String| x@)
}

/// Splits `s` at each occurrence of `c`.
pub fn split_at_char(s: &str, c: char) -> (r: Vec<String>)
    ensures
        texts(r@) == split_text(s@, c),
{
    let n = s.unicode_len();
    let mut r: Vec<String> = Vec::new();
    let mut start: usize = 0;
    let mut i: usize = 0;
    assert(s@.take(0) =~= Seq::<char>::empty());
    assert(texts(r@) + seq![s@.subrange(0, 0)] =~= split_text(s@.take(0), c));
    while i < n
        invariant
            n == s@.len(),
            start <= i <= n,
            texts(r@) + seq![s@.subrange(start as int, i as int)] == split_text(s@.take(i as int), c),
        decreases n - i,
    {
        let ghost before = split_text(s@.take(i as int), c);
        assert(s@.take(i + 1).drop_last() =~= s@.take(i as int));
        assert(s@.take(i + 1).last() == s@[i as int]);
        if s.get_char(i) == c {
            let ghost old_r = r@;
            let piece = String::from_str(s.substring_char(start, i));
            r.push(piece);
            assert(texts(r@) =~= texts(old_r).push(s@.subrange(start as int, i as int)));
            assert(before =~= texts(old_r) + seq![s@.subrange(start as int, i as int)]);
            start = i + 1;
            assert(s@.subrange(start as int, i + 1) =~= Seq::<char>::empty());
            assert(texts(r@) + seq![s@.subrange(start as int, i + 1)] =~= before.push(Seq::<char>::empty()));
        } else {
            assert(s@.subrange(start as int, i + 1) =~= s@.subrange(start as int, i as int).push(s@[i as int]));
            assert(texts(r@) + seq![s@.subrange(start as int, i + 1)] =~= before.update(
                before.len() - 1,
                before.last().push(s@[i as int]),
            ));
        }
        i += 1;
    }
    let ghost old_r = r@;
    r.push(String::from_str(s.substring_char(start, n)));
    assert(texts(r@) =~= texts(old_r).push(s@.subrange(start as int, n as int)));
    assert(s@.take(n as int) =~= s@);
    assert(texts(r@) =~= split_text(s@, c));
    r
}

/// Reads one data row of the sample sheet.
pub fn parse_sheet_line(line: &str) -> (r: Result<Barcode, ConfigError>)
    ensures
        sheet_row(line@) is None ==> r == Err::<Barcode, ConfigError>(ConfigError::MalformedSheet),
        sheet_row(line@) matches Some(t) ==> (r matches Ok(b) && row_view(b) == t),
{
    let f = split_at_char(line, COLUMN_SEPARATOR);
    assert(f@.len() == split_text(line@, COLUMN_SEPARATOR).len());
    if f.len() < 4 {
        return Err(ConfigError::MalformedSheet);
    }
    assert(f@[1]@ == split_text(line@, COLUMN_SEPARATOR)[1]);
    let z = split_at_char(f[1].as_str(), INDEX_SEPARATOR);
    assert(z@.len() == split_text(f@[1]@, INDEX_SEPARATOR).len());
    if z.len() < 2 {
        return Err(ConfigError::MalformedSheet);
    }
    let ghost fv = split_text(line@, COLUMN_SEPARATOR);
    let ghost zv = split_text(fv[1], INDEX_SEPARATOR);
    assert(f@[0]@ == fv[0] && f@[2]@ == fv[2] && f@[3]@ == fv[3]);
    assert(z@[0]@ == zv[0] && z@[1]@ == zv[1]);
    Ok((z[0].clone(), z[1].clone(), f[0].clone(), f[2].clone(), f[3].clone()))
}

/// Reads the palette from the lines of a sample sheet; the first line is
/// a heading and is skipped.
pub fn parse_sheet(lines: &Vec<String>) -> (r: Result<Vec<Barcode>, ConfigError>)
    ensures
        r is Ok <==> forall|i: int| 1 <= i < lines@.len() ==> #[trigger] sheet_row(lines@[i]@) is Some,
        r is Err ==> r == Err::<Vec<Barcode>, ConfigError>(ConfigError::MalformedSheet),
        r matches Ok(p) ==> {
            &&& lines@.len() <= 1 ==> p@.len() == 0
            &&& lines@.len() > 1 ==> p@.len() == lines@.len() - 1
            &&& forall|i: int| 0 <= i < p@.len() ==> sheet_row(lines@[i + 1]@) == Some(
                #[trigger] row_view(p@[i]),
            )
        },
{
    let mut p: Vec<Barcode> = Vec::new();
    let mut i: usize = 1;
    while i < lines.len()
        invariant
            1 <= i,
            i <= lines@.len() || (i == 1 && lines@.len() == 0),
            p@.len() == i - 1,
            forall|k: int| 1 <= k < i ==> #[trigger] sheet_row(lines@[k]@) is Some,
            forall|k: int| 0 <= k < p@.len() ==> sheet_row(lines@[k + 1]@) == Some(
                #[trigger] row_view(p@[k]),
            ),
        decreases lines@.len() - i,
    {
        match parse_sheet_line(lines[i].as_str()) {
            Ok(b) => p.push(b),
            Err(e) => {
                return Err(e);
            },
        }
        i += 1;
    }
    Ok(p)
}

/// Where the observed pairs come from.
#[derive(Clone, Copy, Debug, PartialEq, Eq, Structural)]
pub enum IndexMode {
    /// At the end of each primary header.
    InHeader,
    /// In the sequences of two sidecar index files.
    Sidecar,
}

/// The mode for the number of files matching the input prefix: two read
/// files carry their pairs in their headers; four are two read files and
/// two index files; any other count is a configuration fault.
pub fn select_mode(file_count: usize) -> (r: Result<IndexMode, ConfigError>)
    ensures
        file_count == 2 ==> r == Ok::<IndexMode, ConfigError>(IndexMode::InHeader),
        file_count == 4 ==> r == Ok::<IndexMode, ConfigError>(IndexMode::Sidecar),
        file_count != 2 && file_count != 4 ==> r == Err::<IndexMode, ConfigError>(
            ConfigError::InputCount,
        ),
{
    if file_count == 2 {
        Ok(IndexMode::InHeader)
    } else if file_count == 4 {
        Ok(IndexMode::Sidecar)
    } else {
        Err(ConfigError::InputCount)
    }
}

/// `t` occurs in `h` at position `i`.
pub open spec fn occurs_at(h: Seq<char>, t: Seq<char>, i: int) -> bool {
    0 <= i && i + t.len() <= h.len() && h.subrange(i, i + t.len()) == t
}

/// `t` occurs in `h`.
pub open spec fn contains_text(h: Seq<char>, t: Seq<char>) -> bool {
    exists|i: int| #[trigger] occurs_at(h, t, i)
}

/// Whether `t` occurs in `h`.
pub fn has_text(h: &str, t: &str) -> (r: bool)
    ensures
        r == contains_text(h@, t@),
{
    let n = h.unicode_len();
    let m = t.unicode_len();
    if m > n {
        assert forall|i: int| !#[trigger] occurs_at(h@, t@, i) by {}
        return false;
    }
    let mut i: usize = 0;
    while i <= n - m
        invariant
            n == h@.len(),
            m == t@.len(),
            m <= n,
            i <= n - m + 1,
            forall|k: int| 0 <= k < i ==> !#[trigger] occurs_at(h@, t@, k),
        decreases n - m + 1 - i,
    {
        let mut j: usize = 0;
        while j < m
            invariant
                n == h@.len(),
                m == t@.len(),
                i + m <= n,
                j <= m,
                forall|l: int| 0 <= l < j ==> h@[i + l] == t@[l],
            ensures
                j <= m,
                forall|l: int| 0 <= l < j ==> h@[i + l] == t@[l],
                j < m ==> h@[i + j] != t@[j as int],
            decreases m - j,
        {
            if h.get_char(i + j) != t.get_char(j) {
                break;
            }
            j += 1;
        }
        if j == m {
            assert(h@.subrange(i as int, i + m) =~= t@);
            assert(occurs_at(h@, t@, i as int));
            return true;
        }
        assert(!occurs_at(h@, t@, i as int)) by {
            if occurs_at(h@, t@, i as int) {
                assert(h@.subrange(i as int, i + m)[j as int] == t@[j as int]);
            }
        }
        i += 1;
    }
    assert forall|k: int| !#[trigger] occurs_at(h@, t@, k) by {
        if 0 <= k < i {
        }
    }
    false
}

/// The position of the first name that contains `tag`.
pub fn find_tagged(names: &Vec<String>, tag: &str) -> (r: Option<usize>)
    ensures
        r matches Some(i) ==> i < names@.len() && contains_text(names@[i as int]@, tag@) && forall|k: int|
            0 <= k < i ==> !contains_text(#[trigger] names@[k]@, tag@),
        r is None ==> forall|k: int| 0 <= k < names@.len() ==> !contains_text(#[trigger] names@[k]@, tag@),
{
    let mut i: usize = 0;
    while i < names.len()
        invariant
            i <= names@.len(),
            forall|k: int| 0 <= k < i ==> !contains_text(#[trigger] names@[k]@, tag@),
        decreases names@.len() - i,
    {
        if has_text(names[i].as_str(), tag) {
            return Some(i);
        }
        i += 1;
    }
    None
}


/// Tag in the name of the first read file.
pub const READ1_TAG: &'static str = "_R1";

/// Tag in the name of the second read file.
pub const READ2_TAG: &'static str = "_R2";

/// Tag in the name of the first index file.
pub const INDEX1_TAG: &'static str = "_I1";

/// Tag in the name of the second index file.
pub const INDEX2_TAG: &'static str = "_I2";

/// Some name contains `tag`.
pub open spec fn tag_present(names: Seq<String>, tag: Seq<char>) -> bool {
    exists|k: int| 0 <= k < names.len() && contains_text(#[trigger] names[k]@, tag)
}

/// `i` is the first name that contains `tag`.
pub open spec fn first_tagged(names: Seq<String>, tag: Seq<char>, i: int) -> bool {
    &&& 0 <= i < names.len()
    &&& contains_text(names[i]@, tag)
    &&& forall|k: int| 0 <= k < i ==> !contains_text(#[trigger] names[k]@, tag)
}

/// The input files of a pass, by position in the list of matching names.
#[derive(Clone, Copy, Debug, PartialEq, Eq)]
pub struct InputFiles {
    pub read1: usize,
    pub read2: usize,
    /// The two index files, in sidecar mode.
    pub index: Option<(usize, usize)>,
}

/// Picks the read files, and the index files when there are four names,
/// each as the first name carrying its tag.
pub fn choose_inputs(names: &Vec<String>) -> (r: Result<InputFiles, ConfigError>)
    ensures
        names@.len() != 2 && names@.len() != 4 ==> r == Err::<InputFiles, ConfigError>(
            ConfigError::InputCount,
        ),
        (names@.len() == 2 || names@.len() == 4) ==> (r == Err::<InputFiles, ConfigError>(
            ConfigError::MissingInput,
        ) <==> !(tag_present(names@, READ1_TAG@) && tag_present(names@, READ2_TAG@) && (
        names@.len() == 4 ==> tag_present(names@, INDEX1_TAG@) && tag_present(names@, INDEX2_TAG@)))),
        (names@.len() == 2 || names@.len() == 4) && tag_present(names@, READ1_TAG@) && tag_present(
            names@,
            READ2_TAG@,
        ) && (names@.len() == 4 ==> tag_present(names@, INDEX1_TAG@) && tag_present(
            names@,
            INDEX2_TAG@,
        )) ==> r is Ok,
        r matches Ok(f) ==> {
            &&& first_tagged(names@, READ1_TAG@, f.read1 as int)
            &&& first_tagged(names@, READ2_TAG@, f.read2 as int)
            &&& (f.index is Some <==> names@.len() == 4)
            &&& f.index matches Some(ix) ==> first_tagged(names@, INDEX1_TAG@, ix.0 as int)
                && first_tagged(names@, INDEX2_TAG@, ix.1 as int)
        },
{
    let mode = match select_mode(names.len()) {
        Ok(m) => m,
        Err(e) => return Err(e),
    };
    let read1 = match find_tagged(names, READ1_TAG) {
        Some(i) => i,
        None => return Err(ConfigError::MissingInput),
    };
    let read2 = match find_tagged(names, READ2_TAG) {
        Some(i) => i,
        None => return Err(ConfigError::MissingInput),
    };
    let index = match mode {
        IndexMode::InHeader => None,
        IndexMode::Sidecar => {
            let i1 = match find_tagged(names, INDEX1_TAG) {
                Some(i) => i,
                None => return Err(ConfigError::MissingInput),
            };
            let i2 = match find_tagged(names, INDEX2_TAG) {
                Some(i) => i,
                None => return Err(ConfigError::MissingInput),
            };
            Some((i1, i2))
        },
    };
    Ok(InputFiles { read1, read2, index })
}

} // verus!
