//! Backup archives: what goes into one, how many bytes unpacking it writes,
//! and what is done with each entry when it is unpacked.
use vstd::prelude::*;

verus! {

/// Folder of imported wallpaper files, packed with its contents.
pub const WALLPAPERS_DIR: &'static str = "wallpapers";

/// Folder of generated thumbnails, packed with its contents.
pub const THUMBNAILS_DIR: &'static str = "thumbnails";

/// The database file, packed at the archive's root.
pub const DATABASE_FILE: &'static str = "app.db";

/// The sum of `sizes`.
pub open spec fn sum_spec(sizes: Seq<u64>) -> int
    decreases sizes.len(),
{
    if sizes.len() == 0 {
        0
    } else {
        sum_spec(sizes.drop_last()) + sizes.last()
    }
}

proof fn lemma_sum_prefix_bounded(sizes: Seq<u64>, i: int)
    requires
        0 <= i <= sizes.len(),
    ensures
        sum_spec(sizes.subrange(0, i)) <= sum_spec(sizes),
    decreases sizes.len() - i,
{
    if i < sizes.len() {
        lemma_sum_prefix_bounded(sizes, i + 1);
        assert(sizes.subrange(0, i + 1).drop_last() =~= sizes.subrange(0, i));
    } else {
        assert(sizes.subrange(0, i) =~= sizes);
    }
}

/// The number of bytes of a set of files of the given sizes (the progress
/// total of an export).
pub fn total_bytes(sizes: &Vec<u64>) -> (r: u64)
    requires
        sum_spec(sizes@) <= u64::MAX,
    ensures
        r == sum_spec(sizes@),
{
    let ghost s = sizes@;
    let mut total: u64 = 0;
    let mut i: usize = 0;
    while i < sizes.len()
        invariant
            s == sizes@,
            i <= s.len(),
            sum_spec(s) <= u64::MAX,
            total == sum_spec(s.subrange(0, i as int)),
        decreases s.len() - i,
    {
        assert(s.subrange(0, i + 1).drop_last() =~= s.subrange(0, i as int));
        proof {
            lemma_sum_prefix_bounded(s, i + 1);
        }
        total = total + sizes[i];
        i = i + 1;
    }
    assert(s.subrange(0, s.len() as int) =~= s);
    total
}

/// The sizes of the file entries of an archive whose entries are
/// (is a directory, unpacked size), in order.
pub open spec fn file_sizes(entries: Seq<(bool, u64)>) -> Seq<u64>
    decreases entries.len(),
{
    if entries.len() == 0 {
        Seq::empty()
    } else {
        let p = file_sizes(entries.drop_last());
        if entries.last().0 {
            p
        } else {
            p.push(entries.last().1)
        }
    }
}

/// The number of bytes unpacking an archive writes (the progress total of an
/// import): the sizes of its file entries added up, directories left out.
pub fn unpacked_total(entries: &Vec<(bool, u64)>) -> (r: u64)
    requires
        sum_spec(file_sizes(entries@)) <= u64::MAX,
    ensures
        r == sum_spec(file_sizes(entries@)),
{
    let ghost s = entries@;
    let mut sizes: Vec<u64> = Vec::new();
    let mut i: usize = 0;
    while i < entries.len()
        invariant
            s == entries@,
            i <= s.len(),
            sizes@ == file_sizes(s.subrange(0, i as int)),
        decreases s.len() - i,
    {
        assert(s.subrange(0, i + 1).drop_last() =~= s.subrange(0, i as int));
        assert(s.subrange(0, i + 1).last() == s[i as int]);
        let (is_dir, size) = entries[i];
        if !is_dir {
            sizes.push(size);
        }
        i = i + 1;
    }
    assert(s.subrange(0, s.len() as int) =~= s);
    total_bytes(&sizes)
}

/// Whether `name` has a dot at `i` and another right after it.
pub open spec fn dots_at(name: Seq<char>, i: int) -> bool {
    0 <= i && i + 1 < name.len() && name[i] == '.' && name[i + 1] == '.'
}

/// Whether `name` holds two dots in a row.
pub open spec fn has_double_dot(name: Seq<char>) -> bool {
    exists|i: int| #[trigger] dots_at(name, i)
}

/// Whether `name` is rooted (starts with `/` or `\\`) or carries a drive
/// prefix (`C:`): joined to a folder, such a name does not stay inside it.
pub open spec fn is_rooted(name: Seq<char>) -> bool {
    (name.len() > 0 && (name[0] == '/' || name[0] == '\\')) || (name.len() > 1 && name[1] == ':')
}

/// Whether an archive entry name could reach outside the data folder: a name
/// holding `..`, a rooted name and a name with a drive prefix.
pub open spec fn suspicious_name(name: Seq<char>) -> bool {
    has_double_dot(name) || is_rooted(name)
}

/// Whether an archive entry name could reach outside the data folder, so
/// that it is refused.
pub fn is_suspicious_entry(name: &str) -> (r: bool)
    ensures
        r == suspicious_name(name@),
{
    let n = name.unicode_len();
    if n > 0 {
        let c = name.get_char(0);
        if c == '/' || c == '\\' {
            return true;
        }
    }
    if n > 1 && name.get_char(1) == ':' {
        return true;
    }
    let mut i: usize = 0;
    while i < n
        invariant
            n == name@.len(),
            i <= n,
            forall|k: int| 0 <= k < i ==> !#[trigger] dots_at(name@, k),
        decreases n - i,
    {
        if i + 1 < n && name.get_char(i) == '.' && name.get_char(i + 1) == '.' {
            assert(dots_at(name@, i as int));
            return true;
        }
        i = i + 1;
    }
    false
}

/// What unpacking does with one archive entry.
#[derive(Debug, Clone, Copy, PartialEq, Eq, Structural)]
pub enum EntryAction {
    /// Leave it out.
    Skip,
    /// Create the directory.
    CreateDir,
    /// Write the file (its parent directories created first), counted among
    /// the imported files.
    WriteFile,
}

/// What unpacking does with the entry `name`: a name that could reach outside
/// the data folder is skipped, a directory is created, a file is written.
pub fn entry_action(name: &str, is_dir: bool) -> (r: EntryAction)
    ensures
        r == (if suspicious_name(name@) {
            EntryAction::Skip
        } else if is_dir {
            EntryAction::CreateDir
        } else {
            EntryAction::WriteFile
        }),
{
    if is_suspicious_entry(name) {
        EntryAction::Skip
    } else if is_dir {
        EntryAction::CreateDir
    } else {
        EntryAction::WriteFile
    }
}

} // verus!
