//! The listing of `ls -l`: one line per entry, entries in the order of
//! their names.
use vstd::prelude::*;
use crate::filesize::{Filesize, SIZE_LIMIT, size_text};
use crate::names::{
    name_before,
    name_less,
    lemma_name_less_asymmetric,
    lemma_name_less_irreflexive,
    lemma_name_less_transitive,
};
use crate::permissions::{Permissions, permissions_text};
use crate::timestamp::{
    LocalDateTime,
    Timestamp,
    in_shown_range,
    is_valid_date_time,
    local_text,
    shows_time,
};
use crate::user::{user_label, user_name, user_text};

verus! {

broadcast use vstd::seq_lib::group_seq_properties;

/// What a listing shows of one file: its name, its size in bytes, its
/// mode, the ID of its owner and, where the file system could report it,
/// the time it was last modified.
pub struct Entry {
    pub filename: String,
    pub size: Filesize,
    pub permissions: Permissions,
    pub uid: u32,
    pub modified: Option<Timestamp>,
}

/// Why no line could be shown for an entry.
#[derive(PartialEq, Eq, Structural, Debug, Clone, Copy)]
pub enum ShowError {
    /// The file system did not report when the file was last modified.
    ModifiedUnavailable,
    /// The modification time lies outside the dates that can be shown.
    TimeOutOfRange,
    /// The size is too large for the size column (`1023.5 * 1024^3` bytes
    /// or more).
    SizeOutOfRange,
}

/// The line of a listing for `entry`, with `user` in the owner column and
/// `time` in the modification-time column: the mode, the size, the owner,
/// the time and the name, separated by single spaces.
pub open spec fn entry_text(entry: Entry, user: Seq<char>, time: Seq<char>) -> Seq<char> {
    permissions_text(entry.permissions.mode) + seq![' '] + size_text(entry.size.0 as nat) + seq![
        ' ',
    ] + user + seq![' '] + time + seq![' '] + entry.filename@
}

/// The text of an optional name.
pub open spec fn name_view(name: Option<String>) -> Option<Seq<char>> {
    match name {
        Some(n) => Some(n@),
        None => None,
    }
}

/// The text of a line, or its error.
pub open spec fn line_view(line: Result<String, ShowError>) -> Result<Seq<char>, ShowError> {
    match line {
        Ok(s) => Ok(s@),
        Err(e) => Err(e),
    }
}

/// What showing `entry` gives, where the user database gave `name` for its
/// owner and the local time of its modification time is `date` (`None` where
/// that time cannot be represented): the first of its failures in the order
/// that `ls -l` meets them (the modification time, its local time, the
/// size), else its line.
pub open spec fn show_result(entry: Entry, name: Option<Seq<char>>, date: Option<LocalDateTime>) -> Result<
    Seq<char>,
    ShowError,
> {
    if entry.modified is None {
        Err(ShowError::ModifiedUnavailable)
    } else if date is None {
        Err(ShowError::TimeOutOfRange)
    } else if entry.size.0 >= SIZE_LIMIT {
        Err(ShowError::SizeOutOfRange)
    } else {
        Ok(entry_text(entry, user_text(entry.uid as nat, name), local_text(date->0)))
    }
}

/// What showing `entry` gives when the line cannot be made, whatever the
/// user database and time zone: `None` where the result depends on them.
pub open spec fn show_failure(entry: Entry) -> Option<ShowError> {
    if entry.modified is None {
        Some(ShowError::ModifiedUnavailable)
    } else if in_shown_range(entry.modified->0) && entry.size.0 >= SIZE_LIMIT {
        Some(ShowError::SizeOutOfRange)
    } else {
        None
    }
}

/// Whether `line` is what showing `entry` gives for some name of its owner
/// and some local time of its modification time, the local time present
/// where the time lies within the range that can be shown.
pub open spec fn is_shown_as(entry: Entry, line: Result<String, ShowError>) -> bool {
    exists|name: Option<Seq<char>>, date: Option<LocalDateTime>|
        {
            &&& date is Some ==> is_valid_date_time(date->0)
            &&& date is Some ==> entry.modified is Some && shows_time(
                date->0,
                entry.modified->0.secs as int,
            )
            &&& entry.modified is Some && in_shown_range(entry.modified->0) ==> date is Some
            &&& line_view(line) == show_result(entry, name, date)
        }
}

impl Entry {
    /// An entry for the file `filename` whose metadata gave these values.
    pub fn new(filename: &str, len: u64, mode: u32, uid: u32, modified: Option<Timestamp>) -> (e:
        Self)
        ensures
            e.filename@ == filename@,
            e.size.0 == len,
            e.permissions.mode == mode,
            e.uid == uid,
            e.modified == modified,
    {
        Entry {
            filename: filename.to_owned(),
            size: Filesize(len),
            permissions: Permissions::new(mode),
            uid: uid,
            modified: modified,
        }
    }

    /// The line for this entry with `user` in the owner column and
    /// `modified_at` in the modification-time column.
    pub fn line(&self, user: &str, modified_at: &str) -> (s: String)
        requires
            self.size.0 < SIZE_LIMIT,
        ensures
            s@ == entry_text(*self, user@, modified_at@),
    {
        proof {
            reveal_strlit(" ");
        }
        let mut s = self.permissions.to_string();
        s.append(" ");
        let size = self.size.to_string();
        s.append(size.as_str());
        s.append(" ");
        s.append(user);
        s.append(" ");
        s.append(modified_at);
        s.append(" ");
        s.append(self.filename.as_str());
        assert(s@ =~= entry_text(*self, user@, modified_at@));
        s
    }

    /// What showing this entry gives, where the user database gave `name`
    /// for its owner and `date` is the local time of its modification time
    /// (`None` where that time cannot be represented).
    pub fn show_with(&self, name: Option<String>, date: Option<LocalDateTime>) -> (r: Result<
        String,
        ShowError,
    >)
        requires
            date matches Some(d) ==> is_valid_date_time(d),
        ensures
            line_view(r) == show_result(*self, name_view(name), date),
    {
        if self.modified.is_none() {
            return Err(ShowError::ModifiedUnavailable);
        }
        let ghost name_text = name_view(name);
        match date {
            None => Err(ShowError::TimeOutOfRange),
            Some(d) => {
                if self.size.0 >= SIZE_LIMIT {
                    Err(ShowError::SizeOutOfRange)
                } else {
                    let modified_at = d.to_string();
                    let user = user_label(self.uid, name);
                    let s = self.line(user.as_str(), modified_at.as_str());
                    assert(user@ == user_text(self.uid as nat, name_text));
                    Ok(s)
                }
            },
        }
    }

    /// The line that `ls -l` prints for this entry, with the owner's name
    /// and the local time as the system gives them now; an error where the
    /// modification time is unknown or cannot be represented, or the size
    /// is too large to show.
    pub fn show(&self) -> (r: Result<String, ShowError>)
        ensures
            is_shown_as(*self, r),
            show_failure(*self) matches Some(e) ==> r == Err::<String, ShowError>(e),
    {
        let date = match &self.modified {
            None => None,
            Some(t) => t.local(),
        };
        let name = user_name(self.uid);
        let ghost name_text = name_view(name);
        let r = self.show_with(name, date);
        assert(line_view(r) == show_result(*self, name_text, date));
        r
    }
}

/// Where an entry named `name` goes among the entries `s`: before the
/// first whose name comes after it, else at the end.
pub open spec fn insert_index(s: Seq<Entry>, name: Seq<char>) -> nat
    decreases s.len(),
{
    if s.len() == 0 {
        0
    } else if name_less(name, s[0].filename@) {
        0
    } else {
        1 + insert_index(s.drop_first(), name)
    }
}

/// `s` with `e` inserted where `insert_index` puts it.
pub open spec fn insert_by_name(s: Seq<Entry>, e: Entry) -> Seq<Entry> {
    s.insert(insert_index(s, e.filename@) as int, e)
}

/// The entries of `s` ordered by name, entries of the same name in the
/// order of `s`: each entry in turn inserted after all entries whose name
/// does not come after its own.
pub open spec fn sort_by_name(s: Seq<Entry>) -> Seq<Entry>
    decreases s.len(),
{
    if s.len() == 0 {
        s
    } else {
        insert_by_name(sort_by_name(s.drop_last()), s.last())
    }
}

/// Whether no entry of `s` has a name that comes before that of an entry
/// ahead of it.
pub open spec fn sorted_by_name(s: Seq<Entry>) -> bool {
    forall|i: int, j: int|
        0 <= i < j < s.len() ==> !name_less(#[trigger] s[j].filename@, #[trigger] s[i].filename@)
}

/// The index that `insert_index` gives is the first whose name comes
/// after `name`.
#[verifier::spinoff_prover]
proof fn lemma_insert_index(s: Seq<Entry>, name: Seq<char>)
    ensures
        insert_index(s, name) <= s.len(),
        forall|k: int| 0 <= k < insert_index(s, name) ==> !name_less(name, #[trigger] s[k].filename@),
        insert_index(s, name) < s.len() ==> name_less(name, s[insert_index(s, name) as int].filename@),
    decreases s.len(),
{
    if s.len() > 0 && !name_less(name, s[0].filename@) {
        let t = s.drop_first();
        lemma_insert_index(t, name);
        assert(insert_index(s, name) == 1 + insert_index(t, name));
        assert forall|k: int| 0 <= k < insert_index(s, name) implies !name_less(
            name,
            #[trigger] s[k].filename@,
        ) by {
            if k > 0 {
                assert(s[k] == t[k - 1]);
                assert(0 <= k - 1 < insert_index(t, name));
                assert(!name_less(name, t[k - 1].filename@));
            }
        }
    }
}

/// An index with every name before it not after `name` and the name at
/// it after `name` is the one that `insert_index` gives.
#[verifier::spinoff_prover]
proof fn lemma_insert_index_unique(s: Seq<Entry>, name: Seq<char>, j: int)
    requires
        0 <= j <= s.len(),
        forall|k: int| 0 <= k < j ==> !name_less(name, #[trigger] s[k].filename@),
        j < s.len() ==> name_less(name, s[j].filename@),
    ensures
        insert_index(s, name) == j,
    decreases s.len(),
{
    if j > 0 {
        let t = s.drop_first();
        assert(!name_less(name, s[0].filename@));
        assert forall|k: int| 0 <= k < j - 1 implies !name_less(name, #[trigger] t[k].filename@) by {
            assert(t[k] == s[k + 1]);
        }
        if j - 1 < t.len() {
            assert(t[j - 1] == s[j]);
        }
        lemma_insert_index_unique(t, name, j - 1);
    }
}

/// Inserting by name keeps a sequence sorted.
#[verifier::spinoff_prover]
proof fn lemma_insert_keeps_sorted(s: Seq<Entry>, e: Entry)
    requires
        sorted_by_name(s),
    ensures
        sorted_by_name(insert_by_name(s, e)),
{
    lemma_insert_index(s, e.filename@);
    let j = insert_index(s, e.filename@) as int;
    let t = insert_by_name(s, e);
    assert forall|a: int, b: int| 0 <= a < b < t.len() implies !name_less(
        #[trigger] t[b].filename@,
        #[trigger] t[a].filename@,
    ) by {
        if a < j && b == j {
            assert(t[a] == s[a]);
        } else if a == j && b > j {
            assert(t[b] == s[b - 1]);
            if name_less(s[b - 1].filename@, e.filename@) {
                if b - 1 > j {
                    assert(!name_less(s[b - 1].filename@, s[j].filename@));
                    lemma_name_less_transitive(s[b - 1].filename@, e.filename@, s[j].filename@);
                } else {
                    lemma_name_less_asymmetric(e.filename@, s[j].filename@);
                }
            }
        } else if b < j {
            assert(t[a] == s[a] && t[b] == s[b]);
        } else if a < j {
            assert(t[a] == s[a] && t[b] == s[b - 1]);
        } else {
            assert(t[a] == s[a - 1] && t[b] == s[b - 1]);
        }
    }
}

/// The entries ordered by name are sorted by name.
pub proof fn lemma_sort_by_name_sorted(s: Seq<Entry>)
    ensures
        sorted_by_name(sort_by_name(s)),
    decreases s.len(),
{
    if s.len() > 0 {
        lemma_sort_by_name_sorted(s.drop_last());
        lemma_insert_keeps_sorted(sort_by_name(s.drop_last()), s.last());
    }
}

/// Ordering entries by name neither loses nor adds nor duplicates any.
pub proof fn lemma_sort_by_name_permutes(s: Seq<Entry>)
    ensures
        sort_by_name(s).to_multiset() == s.to_multiset(),
        sort_by_name(s).len() == s.len(),
    decreases s.len(),
{
    if s.len() > 0 {
        let r = sort_by_name(s.drop_last());
        lemma_sort_by_name_permutes(s.drop_last());
        lemma_insert_index(r, s.last().filename@);
        vstd::seq_lib::to_multiset_insert(r, insert_index(r, s.last().filename@) as int, s.last());
        assert(s.drop_last().push(s.last()) =~= s);
        vstd::seq_lib::to_multiset_build(s.drop_last(), s.last());
    }
}

/// The entries ordered by name, by an insertion sort that keeps entries of
/// the same name in the order they came in.
pub fn collect_entries(entries: Vec<Entry>) -> (sorted: Vec<Entry>)
    ensures
        sorted@ == sort_by_name(entries@),
{
    let ghost orig = entries@;
    let mut sorted: Vec<Entry> = Vec::new();
    for e in it: entries
        invariant
            it.seq() == orig,
            sorted@ == sort_by_name(orig.take(it.index() as int)),
    {
        let ghost k = it.index() as int;
        proof {
            assert(orig.take(k + 1).drop_last() =~= orig.take(k));
            assert(orig.take(k + 1).last() == e);
            lemma_insert_index(sorted@, e.filename@);
        }
        let mut j: usize = 0;
        while j < sorted.len() && !name_before(e.filename.as_str(), sorted[j].filename.as_str())
            invariant
                j <= sorted@.len(),
                forall|i: int| 0 <= i < j ==> !name_less(e.filename@, #[trigger] sorted@[i].filename@),
            decreases sorted.len() - j,
        {
            j = j + 1;
        }
        proof {
            lemma_insert_index_unique(sorted@, e.filename@, j as int);
        }
        sorted.insert(j, e);
    }
    proof {
        assert(orig.take(orig.len() as int) =~= orig);
    }
    sorted
}

/// The lines of a directory listing, entries in the order of their names:
/// each entry's line in turn, up to and including the first entry whose
/// line cannot be made, which is given as its error. The entries come back
/// in the order of the lines.
pub fn show_directory(entries: Vec<Entry>) -> (r: (Vec<Entry>, Vec<Result<String, ShowError>>))
    ensures
        r.0@ == sort_by_name(entries@),
        r.1@.len() <= entries@.len(),
        forall|i: int| 0 <= i < r.1@.len() ==> is_shown_as(#[trigger] r.0@[i], r.1@[i]),
        forall|i: int| 0 <= i < r.1@.len() - 1 ==> (#[trigger] r.1@[i]) is Ok,
        r.1@.len() < entries@.len() ==> r.1@.len() > 0 && r.1@[r.1@.len() - 1] is Err,
{
    proof {
        lemma_sort_by_name_permutes(entries@);
    }
    let sorted = collect_entries(entries);
    let mut lines: Vec<Result<String, ShowError>> = Vec::new();
    let mut i: usize = 0;
    while i < sorted.len()
        invariant_except_break
            forall|k: int| 0 <= k < i ==> (#[trigger] lines@[k]) is Ok,
        invariant
            i <= sorted@.len(),
            lines@.len() == i,
            forall|k: int| 0 <= k < i ==> is_shown_as(#[trigger] sorted@[k], lines@[k]),
        ensures
            i <= sorted@.len(),
            lines@.len() == i,
            forall|k: int| 0 <= k < i ==> is_shown_as(#[trigger] sorted@[k], lines@[k]),
            forall|k: int| 0 <= k < i - 1 ==> (#[trigger] lines@[k]) is Ok,
            i < sorted@.len() ==> i > 0 && lines@[i - 1] is Err,
        decreases sorted.len() - i,
    {
        let line = sorted[i].show();
        let failed = line.is_err();
        lines.push(line);
        i = i + 1;
        if failed {
            break;
        }
    }
    (sorted, lines)
}

/// Ordering by name keeps entries of the same name in the order they came
/// in: the entries named `name` appear in the sorted sequence just as they
/// appear in `s`.
#[verifier::spinoff_prover]
pub proof fn lemma_sort_by_name_stable(s: Seq<Entry>, name: Seq<char>)
    ensures
        sort_by_name(s).filter(|e: Entry| e.filename@ == name) == s.filter(
            |e: Entry| e.filename@ == name,
        ),
    decreases s.len(),
{
    let pred = |e: Entry| e.filename@ == name;
    reveal(Seq::filter);
    if s.len() > 0 {
        let r = sort_by_name(s.drop_last());
        let e = s.last();
        lemma_sort_by_name_stable(s.drop_last(), name);
        lemma_sort_by_name_sorted(s.drop_last());
        lemma_insert_index(r, e.filename@);
        let j = insert_index(r, e.filename@) as int;
        let r0 = r.take(j);
        let r1 = r.skip(j);
        assert(r =~= r0 + r1);
        assert(insert_by_name(r, e) =~= r0 + seq![e] + r1);
        Seq::filter_distributes_over_add(r0, r1, pred);
        Seq::filter_distributes_over_add(r0 + seq![e], r1, pred);
        Seq::filter_distributes_over_add(r0, seq![e], pred);
        assert(seq![e].drop_last() =~= Seq::<Entry>::empty());
        if pred(e) {
            // Every entry after the insertion point has a name after `e`'s,
            // so none of them is named `name`.
            assert forall|k: int| 0 <= k < r1.len() implies !pred(#[trigger] r1[k]) by {
                assert(r1[k] == r[j + k]);
                if k > 0 {
                    assert(!name_less(r[j + k].filename@, r[j].filename@));
                    if r[j + k].filename@ == e.filename@ {
                        lemma_name_less_irreflexive(e.filename@);
                    }
                } else {
                    lemma_name_less_irreflexive(e.filename@);
                }
            }
            lemma_filter_none(r1, pred);
            assert(r.filter(pred) =~= r0.filter(pred));
        }
    }
}

/// Entries already in order come out of ordering unchanged.
pub proof fn lemma_sort_by_name_keeps_sorted(s: Seq<Entry>)
    requires
        sorted_by_name(s),
    ensures
        sort_by_name(s) == s,
    decreases s.len(),
{
    if s.len() > 0 {
        let d = s.drop_last();
        assert(sorted_by_name(d)) by {
            assert forall|i: int, j: int| 0 <= i < j < d.len() implies !name_less(
                #[trigger] d[j].filename@,
                #[trigger] d[i].filename@,
            ) by {
                assert(d[i] == s[i] && d[j] == s[j]);
            }
        }
        lemma_sort_by_name_keeps_sorted(d);
        assert forall|k: int| 0 <= k < d.len() implies !name_less(
            s.last().filename@,
            #[trigger] d[k].filename@,
        ) by {
            assert(d[k] == s[k]);
        }
        lemma_insert_index_unique(d, s.last().filename@, d.len() as int);
        assert(d.insert(d.len() as int, s.last()) =~= s);
    }
}

/// Ordering twice gives what ordering once gives.
pub proof fn lemma_sort_by_name_idempotent(s: Seq<Entry>)
    ensures
        sort_by_name(sort_by_name(s)) == sort_by_name(s),
{
    lemma_sort_by_name_sorted(s);
    lemma_sort_by_name_keeps_sorted(sort_by_name(s));
}

/// A sequence with no element that meets `pred` filters to nothing.
proof fn lemma_filter_none<A>(s: Seq<A>, pred: spec_fn(A) -> bool)
    requires
        forall|k: int| 0 <= k < s.len() ==> !pred(#[trigger] s[k]),
    ensures
        s.filter(pred) == Seq::<A>::empty(),
    decreases s.len(),
{
    reveal(Seq::filter);
    if s.len() > 0 {
        lemma_filter_none(s.drop_last(), pred);
    }
    assert(s.filter(pred) =~= Seq::<A>::empty());
}

} // verus!
