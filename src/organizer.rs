use vstd::prelude::*;
use crate::text::{
    append_padded, chars_lt, chars_of, compare_chars, lemma_chars_lt_order, padded,
};
use crate::types::{
    FileMetadata, FileType, FolderPreview, OperationMode, OrganizationPlan, OrganizationStrategy,
    Timestamp,
};

verus! {

/// English name of a month, `Unknown` outside 1..=12.
pub open spec fn month_name(month: u32) -> Seq<char> {
    if month == 1 {
        "January"@
    } else if month == 2 {
        "February"@
    } else if month == 3 {
        "March"@
    } else if month == 4 {
        "April"@
    } else if month == 5 {
        "May"@
    } else if month == 6 {
        "June"@
    } else if month == 7 {
        "July"@
    } else if month == 8 {
        "August"@
    } else if month == 9 {
        "September"@
    } else if month == 10 {
        "October"@
    } else if month == 11 {
        "November"@
    } else if month == 12 {
        "December"@
    } else {
        "Unknown"@
    }
}

/// Folder that collects the files of one type.
pub open spec fn type_folder(t: FileType) -> Seq<char> {
    match t {
        FileType::Image => "Images"@,
        FileType::Video => "Videos"@,
        FileType::Document => "Documents"@,
        FileType::Audio => "Audio"@,
        FileType::Archive => "Archives"@,
        FileType::Other => "Other"@,
    }
}

/// A year as `{:04}` writes it: zero-padded to four characters, the sign included.
pub open spec fn year_text(year: i32) -> Seq<char> {
    if year < 0 {
        "-"@ + padded((-year) as nat, 3)
    } else {
        padded(year as nat, 4)
    }
}

/// `MM-MonthName`
pub open spec fn month_folder(d: Timestamp) -> Seq<char> {
    padded(d.month as nat, 2) + "-"@ + month_name(d.month)
}

/// The date a file is organised by: capture date, else creation, else modification.
pub open spec fn file_date(f: FileMetadata) -> Option<Timestamp> {
    if f.date_taken is Some {
        f.date_taken
    } else if f.created_at is Some {
        f.created_at
    } else {
        f.modified_at
    }
}

pub open spec fn uses_date(strategy: OrganizationStrategy) -> bool {
    strategy != OrganizationStrategy::FileType
}

/// The folder, under `root`, that `strategy` routes the file `f` to.
pub open spec fn folder_for(
    root: Seq<char>,
    strategy: OrganizationStrategy,
    f: FileMetadata,
) -> Seq<char> {
    match strategy {
        OrganizationStrategy::Date => match file_date(f) {
            Some(d) => root + "/"@ + year_text(d.year) + "/"@ + month_folder(d),
            None => root + "/Unknown"@,
        },
        OrganizationStrategy::Year => match file_date(f) {
            Some(d) => root + "/"@ + year_text(d.year),
            None => root + "/Unknown"@,
        },
        OrganizationStrategy::YearMonth => match file_date(f) {
            Some(d) => root + "/"@ + year_text(d.year) + "/"@ + padded(d.month as nat, 2),
            None => root + "/Unknown"@,
        },
        OrganizationStrategy::FileType => root + "/"@ + type_folder(f.file_type),
        OrganizationStrategy::DateAndType => match file_date(f) {
            Some(d) => root + "/"@ + year_text(d.year) + "/"@ + month_folder(d) + "/"@
                + type_folder(f.file_type),
            None => root + "/Unknown"@ + "/"@ + type_folder(f.file_type),
        },
    }
}

/// The files of `recs` that go to the folder `path`, in their order.
pub open spec fn routed_to(
    recs: Seq<FileMetadata>,
    root: Seq<char>,
    strategy: OrganizationStrategy,
    path: Seq<char>,
) -> Seq<FileMetadata>
    decreases recs.len(),
{
    if recs.len() == 0 {
        Seq::empty()
    } else {
        let rest = routed_to(recs.drop_last(), root, strategy, path);
        if folder_for(root, strategy, recs.last()) == path {
            rest.push(recs.last())
        } else {
            rest
        }
    }
}

/// Sum of the sizes of `recs`.
pub open spec fn size_sum(recs: Seq<FileMetadata>) -> nat
    decreases recs.len(),
{
    if recs.len() == 0 {
        0
    } else {
        size_sum(recs.drop_last()) + recs.last().file_size as nat
    }
}

/// How many of `recs` a date strategy sends to `Unknown`.
pub open spec fn undated_count(recs: Seq<FileMetadata>, strategy: OrganizationStrategy) -> nat
    decreases recs.len(),
{
    if recs.len() == 0 {
        0
    } else {
        undated_count(recs.drop_last(), strategy) + if uses_date(strategy) && file_date(
            recs.last(),
        ) is None {
            1nat
        } else {
            0nat
        }
    }
}

pub open spec fn names_of(recs: Seq<FileMetadata>) -> Seq<Seq<char>> {
    recs.map_values(|f: FileMetadata| f.file_name@)
}

pub open spec fn paths_of(recs: Seq<FileMetadata>) -> Seq<Seq<char>> {
    recs.map_values(|f: FileMetadata| f.path@)
}

pub open spec fn strings_view(v: Seq<String>) -> Seq<Seq<char>> {
    v.map_values(|s: String| s@)
}

/// Sum of the file counts of `folders`.
pub open spec fn count_sum(folders: Seq<FolderPreview>) -> int
    decreases folders.len(),
{
    if folders.len() == 0 {
        0
    } else {
        count_sum(folders.drop_last()) + folders.last().file_count
    }
}

/// Sum of the byte totals of `folders`.
pub open spec fn folder_size_sum(folders: Seq<FolderPreview>) -> int
    decreases folders.len(),
{
    if folders.len() == 0 {
        0
    } else {
        folder_size_sum(folders.drop_last()) + folders.last().total_size
    }
}

/// `g` lists exactly the files of `recs` routed to its path, and at least one.
pub open spec fn folder_matches(
    g: FolderPreview,
    recs: Seq<FileMetadata>,
    root: Seq<char>,
    strategy: OrganizationStrategy,
) -> bool {
    let m = routed_to(recs, root, strategy, g.path@);
    &&& m.len() > 0
    &&& g.file_count == m.len()
    &&& g.total_size == size_sum(m)
    &&& strings_view(g.files@) == names_of(m)
    &&& strings_view(g.sources@) == paths_of(m)
}

/// Folder paths strictly increasing, hence unique.
pub open spec fn sorted_by_path(folders: Seq<FolderPreview>) -> bool {
    forall|a: int, b: int|
        0 <= a < b < folders.len() ==> chars_lt(#[trigger] folders[a].path@, #[trigger] folders[b].path@)
}

/// Some folder of `folders` has the path `p`.
pub open spec fn has_folder(folders: Seq<FolderPreview>, p: Seq<char>) -> bool {
    exists|k: int| 0 <= k < folders.len() && #[trigger] folders[k].path@ == p
}

/// `plan` is the plan of `recs` under `root`, `strategy` and `mode`.
pub open spec fn is_plan_for(
    plan: OrganizationPlan,
    recs: Seq<FileMetadata>,
    root: Seq<char>,
    strategy: OrganizationStrategy,
    mode: OperationMode,
) -> bool {
    &&& plan.destination_root@ == root
    &&& plan.strategy == strategy
    &&& plan.mode == mode
    &&& sorted_by_path(plan.folders@)
    &&& forall|k: int|
        0 <= k < plan.folders@.len() ==> folder_matches(
            #[trigger] plan.folders@[k],
            recs,
            root,
            strategy,
        )
    &&& forall|i: int|
        0 <= i < recs.len() ==> has_folder(plan.folders@, folder_for(root, strategy, #[trigger] recs[i]))
    &&& count_sum(plan.folders@) == plan.total_files
    &&& plan.total_files == recs.len()
    &&& folder_size_sum(plan.folders@) == plan.total_size
    &&& plan.total_size == size_sum(recs)
    &&& plan.files_without_dates == undated_count(recs, strategy)
}

/// Name of month `month` (1 = January), `Unknown` outside 1..=12.
pub fn get_month_name(month: u32) -> (r: &'static str)
    ensures
        r@ == month_name(month),
{
    if month == 1 {
        "January"
    } else if month == 2 {
        "February"
    } else if month == 3 {
        "March"
    } else if month == 4 {
        "April"
    } else if month == 5 {
        "May"
    } else if month == 6 {
        "June"
    } else if month == 7 {
        "July"
    } else if month == 8 {
        "August"
    } else if month == 9 {
        "September"
    } else if month == 10 {
        "October"
    } else if month == 11 {
        "November"
    } else if month == 12 {
        "December"
    } else {
        "Unknown"
    }
}

/// Name of the folder for files of type `t`.
pub fn type_folder_name(t: FileType) -> (r: &'static str)
    ensures
        r@ == type_folder(t),
{
    match t {
        FileType::Image => "Images",
        FileType::Video => "Videos",
        FileType::Document => "Documents",
        FileType::Audio => "Audio",
        FileType::Archive => "Archives",
        FileType::Other => "Other",
    }
}

/// The best available date of a file: capture date, else creation, else modification.
pub fn get_file_date(file: &FileMetadata) -> (r: Option<Timestamp>)
    ensures
        r == file_date(*file),
{
    if file.date_taken.is_some() {
        file.date_taken
    } else if file.created_at.is_some() {
        file.created_at
    } else {
        file.modified_at
    }
}

fn append_year(out: &mut String, year: i32)
    ensures
        final(out)@ == old(out)@ + year_text(year),
{
    if year < 0 {
        out.append("-");
        let magnitude: u64 = (-(year as i64)) as u64;
        append_padded(out, magnitude, 3);
    } else {
        append_padded(out, year as u64, 4);
    }
    assert(final(out)@ =~= old(out)@ + year_text(year));
}

fn append_month_folder(out: &mut String, d: Timestamp)
    ensures
        final(out)@ == old(out)@ + month_folder(d),
{
    append_padded(out, d.month as u64, 2);
    out.append("-");
    out.append(get_month_name(d.month));
    assert(final(out)@ =~= old(out)@ + month_folder(d));
}

/// The folder that `strategy` routes `file` to under `root`, and whether
/// the file lacked the date that the strategy needs.
pub fn destination_folder(root: &str, strategy: OrganizationStrategy, file: &FileMetadata) -> (r: (
    String,
    bool,
))
    ensures
        r.0@ == folder_for(root@, strategy, *file),
        r.1 == (uses_date(strategy) && file_date(*file) is None),
{
    let mut out = root.to_owned();
    let date = get_file_date(file);
    match strategy {
        OrganizationStrategy::FileType => {
            out.append("/");
            out.append(type_folder_name(file.file_type));
            (out, false)
        },
        _ => match date {
            None => {
                out.append("/Unknown");
                if strategy == OrganizationStrategy::DateAndType {
                    out.append("/");
                    out.append(type_folder_name(file.file_type));
                }
                (out, true)
            },
            Some(d) => {
                out.append("/");
                append_year(&mut out, d.year);
                if strategy == OrganizationStrategy::Date {
                    out.append("/");
                    append_month_folder(&mut out, d);
                } else if strategy == OrganizationStrategy::YearMonth {
                    out.append("/");
                    append_padded(&mut out, d.month as u64, 2);
                } else if strategy == OrganizationStrategy::DateAndType {
                    out.append("/");
                    append_month_folder(&mut out, d);
                    out.append("/");
                    out.append(type_folder_name(file.file_type));
                }
                (out, false)
            },
        },
    }
}

proof fn lemma_routed_step(
    recs: Seq<FileMetadata>,
    i: int,
    root: Seq<char>,
    strategy: OrganizationStrategy,
    path: Seq<char>,
)
    requires
        0 <= i < recs.len(),
    ensures
        routed_to(recs.take(i + 1), root, strategy, path) == if folder_for(
            root,
            strategy,
            recs[i],
        ) == path {
            routed_to(recs.take(i), root, strategy, path).push(recs[i])
        } else {
            routed_to(recs.take(i), root, strategy, path)
        },
        size_sum(recs.take(i + 1)) == size_sum(recs.take(i)) + recs[i].file_size,
        undated_count(recs.take(i + 1), strategy) == undated_count(recs.take(i), strategy) + if uses_date(
            strategy,
        ) && file_date(recs[i]) is None {
            1nat
        } else {
            0nat
        },
{
    assert(recs.take(i + 1).drop_last() =~= recs.take(i));
    assert(recs.take(i + 1).last() == recs[i]);
}

proof fn lemma_routed_none(
    recs: Seq<FileMetadata>,
    root: Seq<char>,
    strategy: OrganizationStrategy,
    path: Seq<char>,
)
    requires
        forall|j: int| 0 <= j < recs.len() ==> folder_for(root, strategy, #[trigger] recs[j]) != path,
    ensures
        routed_to(recs, root, strategy, path) == Seq::<FileMetadata>::empty(),
    decreases recs.len(),
{
    if recs.len() > 0 {
        let r = recs.drop_last();
        assert forall|j: int| 0 <= j < r.len() implies folder_for(root, strategy, #[trigger] r[j])
            != path by {
            assert(r[j] == recs[j]);
        }
        lemma_routed_none(r, root, strategy, path);
    }
}

proof fn lemma_routed_bounds(
    recs: Seq<FileMetadata>,
    root: Seq<char>,
    strategy: OrganizationStrategy,
    path: Seq<char>,
)
    ensures
        routed_to(recs, root, strategy, path).len() <= recs.len(),
        size_sum(routed_to(recs, root, strategy, path)) <= size_sum(recs),
    decreases recs.len(),
{
    if recs.len() > 0 {
        let r = recs.drop_last();
        lemma_routed_bounds(r, root, strategy, path);
        let rest = routed_to(r, root, strategy, path);
        if folder_for(root, strategy, recs.last()) == path {
            assert(rest.push(recs.last()).drop_last() =~= rest);
        }
    }
}

proof fn lemma_size_sum_prefix(recs: Seq<FileMetadata>, i: int)
    requires
        0 <= i <= recs.len(),
    ensures
        size_sum(recs.take(i)) <= size_sum(recs),
    decreases recs.len() - i,
{
    if i < recs.len() {
        lemma_routed_step(recs, i, Seq::empty(), OrganizationStrategy::FileType, Seq::empty());
        lemma_size_sum_prefix(recs, i + 1);
    } else {
        assert(recs.take(i) =~= recs);
    }
}

proof fn lemma_folder_sums_update(s: Seq<FolderPreview>, j: int, x: FolderPreview)
    requires
        0 <= j < s.len(),
    ensures
        count_sum(s.update(j, x)) == count_sum(s) - s[j].file_count + x.file_count,
        folder_size_sum(s.update(j, x)) == folder_size_sum(s) - s[j].total_size + x.total_size,
    decreases s.len(),
{
    if j == s.len() - 1 {
        assert(s.update(j, x).drop_last() =~= s.drop_last());
    } else {
        assert(s.update(j, x).drop_last() =~= s.drop_last().update(j, x));
        lemma_folder_sums_update(s.drop_last(), j, x);
    }
}

proof fn lemma_folder_sums_insert(s: Seq<FolderPreview>, j: int, x: FolderPreview)
    requires
        0 <= j <= s.len(),
    ensures
        count_sum(s.insert(j, x)) == count_sum(s) + x.file_count,
        folder_size_sum(s.insert(j, x)) == folder_size_sum(s) + x.total_size,
    decreases s.len(),
{
    if j == s.len() {
        assert(s.insert(j, x).drop_last() =~= s);
    } else {
        assert(s.insert(j, x).drop_last() =~= s.drop_last().insert(j, x));
        lemma_folder_sums_insert(s.drop_last(), j, x);
    }
}

proof fn lemma_folder_sums_prefix(s: Seq<FolderPreview>, k: int)
    requires
        0 <= k < s.len(),
    ensures
        count_sum(s.take(k + 1)) == count_sum(s.take(k)) + s[k].file_count,
        folder_size_sum(s.take(k + 1)) == folder_size_sum(s.take(k)) + s[k].total_size,
        count_sum(s.take(k + 1)) <= count_sum(s),
        folder_size_sum(s.take(k + 1)) <= folder_size_sum(s),
    decreases s.len() - k,
{
    assert(s.take(k + 1).drop_last() =~= s.take(k));
    if k + 1 < s.len() {
        lemma_folder_sums_prefix(s, k + 1);
    } else {
        assert(s.take(k + 1) =~= s);
    }
}

/// What holds after the first `i` records have been placed into `folders`;
/// `home[j]` is the index of the folder of record `j`.
spec fn grouping_inv(
    folders: Seq<FolderPreview>,
    keys: Seq<Vec<char>>,
    home: Seq<int>,
    recs: Seq<FileMetadata>,
    i: int,
    root: Seq<char>,
    strategy: OrganizationStrategy,
) -> bool {
    &&& 0 <= i <= recs.len()
    &&& folders.len() == keys.len()
    &&& forall|k: int| 0 <= k < keys.len() ==> #[trigger] keys[k]@ == folders[k].path@
    &&& sorted_by_path(folders)
    &&& forall|k: int|
        0 <= k < folders.len() ==> folder_matches(
            #[trigger] folders[k],
            recs.take(i),
            root,
            strategy,
        )
    &&& home.len() == i
    &&& forall|j: int|
        0 <= j < i ==> 0 <= #[trigger] home[j] < folders.len() && folders[home[j]].path@
            == folder_for(root, strategy, recs[j])
    &&& count_sum(folders) == i
    &&& folder_size_sum(folders) == size_sum(recs.take(i))
}

/// Adds record `i` of `recs`, whose folder is `path`, to the sorted `folders`.
fn place_file(
    folders: &mut Vec<FolderPreview>,
    keys: &mut Vec<Vec<char>>,
    f: &FileMetadata,
    path: String,
    key: Vec<char>,
    Ghost(home): Ghost<Seq<int>>,
    Ghost(recs): Ghost<Seq<FileMetadata>>,
    Ghost(i): Ghost<int>,
    Ghost(root): Ghost<Seq<char>>,
    Ghost(strategy): Ghost<OrganizationStrategy>,
)
    requires
        grouping_inv(old(folders)@, old(keys)@, home, recs, i, root, strategy),
        i < recs.len(),
        recs[i] == *f,
        key@ == path@,
        path@ == folder_for(root, strategy, *f),
        size_sum(recs.take(i + 1)) <= u64::MAX,
        recs.len() <= usize::MAX,
    ensures
        exists|h: Seq<int>| #[trigger] grouping_inv(final(folders)@, final(keys)@, h, recs, i + 1, root, strategy),
{
    let ghost old_folders = folders@;
    let ghost p = path@;
    let ghost next = recs.take(i + 1);
    let mut j: usize = 0;
    let mut scanning = true;
    while scanning
        invariant
            folders@ == old_folders,
            keys@.len() == folders@.len(),
            j <= keys@.len(),
            forall|t: int| 0 <= t < j ==> chars_lt(#[trigger] keys@[t]@, key@),
            !scanning ==> (j == keys@.len() || !chars_lt(keys@[j as int]@, key@)),
        decreases keys@.len() - j + if scanning {
            1int
        } else {
            0int
        },
    {
        if j == keys.len() {
            scanning = false;
        } else {
            let c = compare_chars(&keys[j], &key);
            if c < 0 {
                j = j + 1;
            } else {
                scanning = false;
            }
        }
    }
    let same = j < keys.len() && compare_chars(&keys[j], &key) == 0;
    proof {
        // Every folder before `j` is before `p`; every folder after `j` is after it.
        assert forall|t: int| 0 <= t < j implies chars_lt(#[trigger] old_folders[t].path@, p) by {
            assert(keys@[t]@ == old_folders[t].path@);
        }
        if j < keys@.len() {
            assert(keys@[j as int]@ == old_folders[j as int].path@);
            lemma_chars_lt_order(p, old_folders[j as int].path@, p);
            assert(same ==> old_folders[j as int].path@ == p);
            assert(!same ==> chars_lt(p, old_folders[j as int].path@));
        }
        assert forall|t: int| j < t < old_folders.len() implies chars_lt(
            p,
            #[trigger] old_folders[t].path@,
        ) by {
            assert(chars_lt(old_folders[j as int].path@, old_folders[t].path@));
            lemma_chars_lt_order(p, old_folders[j as int].path@, old_folders[t].path@);
        }
        assert forall|t: int| 0 <= t < old_folders.len() && (t != j || !same) implies #[trigger] old_folders[t].path@
            != p by {
            lemma_chars_lt_order(old_folders[t].path@, p, p);
        }
        lemma_routed_step(recs, i, root, strategy, p);
        lemma_routed_bounds(next, root, strategy, p);
        lemma_size_sum_prefix(recs, i + 1);
    }
    if same {
        let mut g = folders.remove(j);
        proof {
            assert(g == old_folders[j as int]);
            assert(folder_matches(g, recs.take(i), root, strategy));
            assert(g.path@ == p);
            let m = routed_to(recs.take(i), root, strategy, p);
            assert(m.push(*f).drop_last() =~= m);
            assert(size_sum(m.push(*f)) == size_sum(m) + f.file_size);
        }
        let ghost g0 = g;
        g.files.push(f.file_name.clone());
        g.sources.push(f.path.clone());
        g.file_count = g.file_count + 1;
        g.total_size = g.total_size + f.file_size;
        folders.insert(j, g);
        proof {
            let m = routed_to(recs.take(i), root, strategy, p);
            assert(folders@ =~= old_folders.update(j as int, g));
            assert(strings_view(g.files@) =~= strings_view(g0.files@).push(f.file_name@));
            assert(names_of(m.push(*f)) =~= names_of(m).push(f.file_name@));
            assert(strings_view(g.sources@) =~= strings_view(g0.sources@).push(f.path@));
            assert(paths_of(m.push(*f)) =~= paths_of(m).push(f.path@));
            lemma_folder_sums_update(old_folders, j as int, g);
            assert forall|k: int| 0 <= k < folders@.len() implies folder_matches(
                #[trigger] folders@[k],
                next,
                root,
                strategy,
            ) by {
                if k != j {
                    lemma_routed_step(recs, i, root, strategy, folders@[k].path@);
                }
            }
            assert forall|a: int, b: int| 0 <= a < b < folders@.len() implies chars_lt(
                #[trigger] folders@[a].path@,
                #[trigger] folders@[b].path@,
            ) by {
                assert(old_folders[a].path@ == folders@[a].path@);
                assert(old_folders[b].path@ == folders@[b].path@);
            }
            let h = home.push(j as int);
            assert forall|t: int| 0 <= t < i + 1 implies 0 <= #[trigger] h[t] < folders@.len()
                && folders@[h[t]].path@ == folder_for(root, strategy, recs[t]) by {
                if t < i {
                    assert(h[t] == home[t]);
                }
            }
            assert(grouping_inv(folders@, keys@, h, recs, i + 1, root, strategy));
        }
    } else {
        let mut files: Vec<String> = Vec::new();
        files.push(f.file_name.clone());
        let mut sources: Vec<String> = Vec::new();
        sources.push(f.path.clone());
        let g = FolderPreview {
            path,
            file_count: 1,
            total_size: f.file_size,
            files,
            sources,
        };
        folders.insert(j, g);
        keys.insert(j, key);
        proof {
            assert forall|t: int| 0 <= t < i implies folder_for(root, strategy, #[trigger] recs.take(i)[t])
                != p by {
                assert(recs.take(i)[t] == recs[t]);
                assert(old_folders[home[t]].path@ == folder_for(root, strategy, recs[t]));
            }
            lemma_routed_none(recs.take(i), root, strategy, p);
            let m = routed_to(recs.take(i), root, strategy, p);
            assert(m.push(*f) =~= seq![*f]);
            assert(strings_view(g.files@) =~= names_of(m.push(*f)));
            assert(strings_view(g.sources@) =~= paths_of(m.push(*f)));
            assert(size_sum(seq![*f]) == f.file_size) by {
                assert(seq![*f].drop_last() =~= Seq::<FileMetadata>::empty());
                assert(seq![*f].last() == *f);
                assert(size_sum(Seq::<FileMetadata>::empty()) == 0);
            }
            lemma_folder_sums_insert(old_folders, j as int, g);
            assert forall|k: int| 0 <= k < folders@.len() implies folder_matches(
                #[trigger] folders@[k],
                next,
                root,
                strategy,
            ) by {
                if k < j {
                    assert(folders@[k] == old_folders[k]);
                    lemma_routed_step(recs, i, root, strategy, folders@[k].path@);
                } else if k > j {
                    assert(folders@[k] == old_folders[k - 1]);
                    lemma_routed_step(recs, i, root, strategy, folders@[k].path@);
                }
            }
            assert forall|k: int| 0 <= k < keys@.len() implies #[trigger] keys@[k]@
                == folders@[k].path@ by {
                if k < j {
                    assert(keys@[k] == old(keys)@[k]);
                } else if k > j {
                    assert(keys@[k] == old(keys)@[k - 1]);
                }
            }
            assert forall|a: int, b: int| 0 <= a < b < folders@.len() implies chars_lt(
                #[trigger] folders@[a].path@,
                #[trigger] folders@[b].path@,
            ) by {
                let pa = if a < j {
                    a
                } else {
                    a - 1
                };
                let pb = if b <= j {
                    b
                } else {
                    b - 1
                };
                if a != j && b != j {
                    assert(folders@[a] == old_folders[pa]);
                    assert(folders@[b] == old_folders[pb]);
                    assert(pa < pb);
                } else if a == j {
                    assert(folders@[b] == old_folders[b - 1]);
                } else {
                    assert(folders@[a] == old_folders[a]);
                }
            }
            let h = home.map_values(|x: int| if x >= j {
                x + 1
            } else {
                x
            }).push(j as int);
            assert forall|t: int| 0 <= t < i + 1 implies 0 <= #[trigger] h[t] < folders@.len()
                && folders@[h[t]].path@ == folder_for(root, strategy, recs[t]) by {
                if t < i {
                    let x = home[t];
                    if x >= j {
                        assert(folders@[x + 1] == old_folders[x]);
                    } else {
                        assert(folders@[x] == old_folders[x]);
                    }
                }
            }
            assert(grouping_inv(folders@, keys@, h, recs, i + 1, root, strategy));
        }
    }
}

/// Groups `files` into destination folders sorted by path; returns the folders
/// and how many files lacked the date that the strategy needs.
fn group_files(files: &Vec<FileMetadata>, root: &str, strategy: OrganizationStrategy) -> (r: (
    Vec<FolderPreview>,
    usize,
))
    requires
        size_sum(files@) <= u64::MAX,
    ensures
        sorted_by_path(r.0@),
        forall|k: int|
            0 <= k < r.0@.len() ==> folder_matches(#[trigger] r.0@[k], files@, root@, strategy),
        forall|i: int|
            0 <= i < files@.len() ==> has_folder(r.0@, folder_for(root@, strategy, #[trigger] files@[i])),
        count_sum(r.0@) == files@.len(),
        folder_size_sum(r.0@) == size_sum(files@),
        r.1 == undated_count(files@, strategy),
{
    let ghost recs = files@;
    let mut folders: Vec<FolderPreview> = Vec::new();
    let mut keys: Vec<Vec<char>> = Vec::new();
    let mut undated: usize = 0;
    let ghost mut home: Seq<int> = Seq::empty();
    let mut i: usize = 0;
    proof {
        assert(recs.take(0) =~= Seq::<FileMetadata>::empty());
        assert(grouping_inv(folders@, keys@, home, recs, 0, root@, strategy));
    }
    while i < files.len()
        invariant
            recs == files@,
            size_sum(recs) <= u64::MAX,
            grouping_inv(folders@, keys@, home, recs, i as int, root@, strategy),
            undated == undated_count(recs.take(i as int), strategy),
            undated <= i,
        decreases files@.len() - i,
    {
        let f = &files[i];
        let (path, no_date) = destination_folder(root, strategy, f);
        let key = chars_of(path.as_str());
        proof {
            lemma_routed_step(recs, i as int, root@, strategy, path@);
            lemma_size_sum_prefix(recs, i + 1);
        }
        if no_date {
            undated = undated + 1;
        }
        place_file(
            &mut folders,
            &mut keys,
            f,
            path,
            key,
            Ghost(home),
            Ghost(recs),
            Ghost(i as int),
            Ghost(root@),
            Ghost(strategy),
        );
        proof {
            home = choose|h: Seq<int>| #[trigger]
                grouping_inv(folders@, keys@, h, recs, i + 1, root@, strategy);
        }
        i = i + 1;
    }
    proof {
        assert(recs.take(i as int) =~= recs);
        assert forall|j: int| 0 <= j < recs.len() implies has_folder(
            folders@,
            folder_for(root@, strategy, #[trigger] recs[j]),
        ) by {
            assert(folders@[home[j]].path@ == folder_for(root@, strategy, recs[j]));
        }
    }
    (folders, undated)
}

/// Plans the organisation of `files` under `destination_root`, given whether
/// that directory exists: one folder per destination path, sorted by path.
pub fn build_organization_plan(
    files: Vec<FileMetadata>,
    destination_root: String,
    strategy: OrganizationStrategy,
    mode: OperationMode,
    root_exists: bool,
) -> (r: Result<OrganizationPlan, String>)
    requires
        size_sum(files@) <= u64::MAX,
    ensures
        files@.len() == 0 ==> r is Err && r->Err_0@ == "No files to organize"@,
        files@.len() > 0 && !root_exists ==> r is Err && r->Err_0@
            == "Destination path does not exist: "@ + destination_root@,
        files@.len() > 0 && root_exists ==> r is Ok && is_plan_for(
            r->Ok_0,
            files@,
            destination_root@,
            strategy,
            mode,
        ),
{
    if files.len() == 0 {
        return Err("No files to organize".to_owned());
    }
    if !root_exists {
        let mut msg = "Destination path does not exist: ".to_owned();
        msg.append(destination_root.as_str());
        return Err(msg);
    }
    let (folders, files_without_dates) = group_files(&files, destination_root.as_str(), strategy);
    let mut total_files: usize = 0;
    let mut total_size: u64 = 0;
    let mut k: usize = 0;
    proof {
        assert(folders@.take(0) =~= Seq::<FolderPreview>::empty());
    }
    while k < folders.len()
        invariant
            k <= folders@.len(),
            total_files == count_sum(folders@.take(k as int)),
            total_size == folder_size_sum(folders@.take(k as int)),
            count_sum(folders@) == files@.len(),
            files@.len() <= usize::MAX,
            folder_size_sum(folders@) == size_sum(files@),
            size_sum(files@) <= u64::MAX,
        decreases folders@.len() - k,
    {
        proof {
            lemma_folder_sums_prefix(folders@, k as int);
        }
        total_files = total_files + folders[k].file_count;
        total_size = total_size + folders[k].total_size;
        k = k + 1;
    }
    proof {
        assert(folders@.take(k as int) =~= folders@);
    }
    Ok(
        OrganizationPlan {
            destination_root,
            strategy,
            mode,
            folders,
            total_files,
            total_size,
            files_without_dates,
        },
    )
}

/// Relies on `std::path::Path::exists`: whether anything is at `path` on disk now.
#[verifier::external_body]
fn path_exists(path: &str) -> (r: bool) {
    std::path::Path::new(path).exists()
}

/// Plans the organisation of `files` under the existing directory `destination_root`.
pub fn generate_organization_plan(
    files: Vec<FileMetadata>,
    destination_root: String,
    strategy: OrganizationStrategy,
    mode: OperationMode,
) -> (r: Result<OrganizationPlan, String>)
    requires
        size_sum(files@) <= u64::MAX,
    ensures
        files@.len() == 0 ==> r is Err && r->Err_0@ == "No files to organize"@,
        files@.len() > 0 ==> (r is Ok && is_plan_for(
            r->Ok_0,
            files@,
            destination_root@,
            strategy,
            mode,
        )) || (r is Err && r->Err_0@ == "Destination path does not exist: "@ + destination_root@),
{
    let exists = files.len() > 0 && path_exists(destination_root.as_str());
    build_organization_plan(files, destination_root, strategy, mode, exists)
}

/// In every plan, each folder's count is the number of its files, and the
/// counts add up to the plan's total.
pub proof fn lemma_plan_counts_add_up(
    plan: OrganizationPlan,
    recs: Seq<FileMetadata>,
    root: Seq<char>,
    strategy: OrganizationStrategy,
    mode: OperationMode,
)
    requires
        is_plan_for(plan, recs, root, strategy, mode),
    ensures
        forall|k: int|
            0 <= k < plan.folders@.len() ==> #[trigger] plan.folders@[k].file_count
                == plan.folders@[k].files@.len(),
        count_sum(plan.folders@) == plan.total_files,
{
    assert forall|k: int| 0 <= k < plan.folders@.len() implies #[trigger] plan.folders@[k].file_count
        == plan.folders@[k].files@.len() by {
        assert(folder_matches(plan.folders@[k], recs, root, strategy));
        assert(strings_view(plan.folders@[k].files@).len() == plan.folders@[k].files@.len());
    }
}

/// A file whose organising date is `d` goes to `root/YYYY` under `Year`, to
/// `root/YYYY/MM` under `YearMonth` and to `root/YYYY/MM-MonthName` under `Date`,
/// where the month name of an out-of-range month is `Unknown`.
pub proof fn lemma_date_folders(root: Seq<char>, f: FileMetadata, d: Timestamp)
    requires
        file_date(f) == Some(d),
    ensures
        folder_for(root, OrganizationStrategy::Year, f) == root + "/"@ + year_text(d.year),
        folder_for(root, OrganizationStrategy::YearMonth, f) == root + "/"@ + year_text(d.year)
            + "/"@ + padded(d.month as nat, 2),
        folder_for(root, OrganizationStrategy::Date, f) == root + "/"@ + year_text(d.year) + "/"@
            + padded(d.month as nat, 2) + "-"@ + month_name(d.month),
        !(1 <= d.month <= 12) ==> month_name(d.month) == "Unknown"@,
{
}

} // verus!
