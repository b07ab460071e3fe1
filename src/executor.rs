use vstd::prelude::*;
use crate::organizer::strings_view;
use crate::text::{append_decimal, chars_of, decimal, digit_char};
use crate::types::{
    FileMetadata, FileOperation, FolderPreview, OperationMode, OperationResult, OperationStatus,
    OrganizationPlan, Timestamp,
};

verus! {

/// Index of the last `.` in `s` below position `i`, or -1.
pub open spec fn last_dot_below(s: Seq<char>, i: int) -> int
    decreases i,
{
    if i <= 0 || i > s.len() {
        -1
    } else if s[i - 1] == '.' {
        i - 1
    } else {
        last_dot_below(s, i - 1)
    }
}

/// Index of the last `.` of a file name, or -1.
pub open spec fn last_dot(s: Seq<char>) -> int {
    last_dot_below(s, s.len() as int)
}

/// The file name without its extension, as `Path::file_stem` gives it:
/// a leading dot starts no extension.
pub open spec fn stem_of(s: Seq<char>) -> Seq<char> {
    if last_dot(s) <= 0 {
        s
    } else {
        s.subrange(0, last_dot(s))
    }
}

/// The extension of a file name, empty where it has none.
pub open spec fn ext_of(s: Seq<char>) -> Seq<char> {
    if last_dot(s) <= 0 {
        Seq::empty()
    } else {
        s.subrange(last_dot(s) + 1, s.len() as int)
    }
}

/// The `k`-th name tried for a file called `name`: the name itself, then
/// `stem_1.ext`, `stem_2.ext`, ... (`stem_k` where the extension is empty).
pub open spec fn candidate_name(name: Seq<char>, k: nat) -> Seq<char> {
    if k == 0 {
        name
    } else if ext_of(name).len() == 0 {
        stem_of(name) + "_"@ + decimal(k)
    } else {
        stem_of(name) + "_"@ + decimal(k) + "."@ + ext_of(name)
    }
}

/// `r` is the first candidate name for `name` that is not in `taken`.
pub open spec fn first_free_name(name: Seq<char>, taken: Set<Seq<char>>, r: Seq<char>) -> bool {
    exists|k: nat|
        #[trigger] candidate_name(name, k) == r && !taken.contains(r) && forall|j: nat|
            j < k ==> taken.contains(#[trigger] candidate_name(name, j))
}

proof fn lemma_last_dot_range(s: Seq<char>, i: int)
    requires
        0 <= i,
    ensures
        -1 <= last_dot_below(s, i) < s.len(),
        last_dot_below(s, i) < i,
        last_dot_below(s, i) >= 0 ==> s[last_dot_below(s, i)] == '.',
    decreases i,
{
    if 0 < i <= s.len() && s[i - 1] != '.' {
        lemma_last_dot_range(s, i - 1);
    }
}

proof fn lemma_decimal_nonempty(n: nat)
    ensures
        decimal(n).len() >= 1,
        n >= 10 ==> decimal(n).len() >= 2,
    decreases n,
{
    if n >= 10 {
        lemma_decimal_nonempty(n / 10);
    }
}

proof fn lemma_decimal_injective(a: nat, b: nat)
    requires
        decimal(a) == decimal(b),
    ensures
        a == b,
    decreases a,
{
    lemma_decimal_nonempty(a);
    lemma_decimal_nonempty(b);
    if a >= 10 && b >= 10 {
        assert(decimal(a).drop_last() =~= decimal(a / 10));
        assert(decimal(b).drop_last() =~= decimal(b / 10));
        assert(decimal(a).last() == digit_char((a % 10) as int));
        assert(decimal(b).last() == digit_char((b % 10) as int));
        lemma_decimal_injective(a / 10, b / 10);
    } else if a < 10 && b < 10 {
        assert(decimal(a)[0] == digit_char(a as int));
        assert(decimal(b)[0] == digit_char(b as int));
    }
}

/// Distinct counters give distinct candidate names.
pub proof fn lemma_candidates_distinct(name: Seq<char>, j: nat, k: nat)
    requires
        j != k,
    ensures
        candidate_name(name, j) != candidate_name(name, k),
{
    lemma_last_dot_range(name, name.len() as int);
    lemma_decimal_nonempty(j);
    lemma_decimal_nonempty(k);
    reveal_strlit("_");
    reveal_strlit(".");
    let stem = stem_of(name);
    let ext = ext_of(name);
    if j == 0 || k == 0 {
        let m = if j == 0 {
            k
        } else {
            j
        };
        assert(candidate_name(name, m).len() > name.len());
    } else if candidate_name(name, j) == candidate_name(name, k) {
        let cj = candidate_name(name, j);
        let ck = candidate_name(name, k);
        if ext.len() == 0 {
            assert(cj.len() == stem.len() + 1 + decimal(j).len());
            assert(ck.len() == stem.len() + 1 + decimal(k).len());
        } else {
            assert(cj.len() == stem.len() + 1 + decimal(j).len() + 1 + ext.len());
            assert(ck.len() == stem.len() + 1 + decimal(k).len() + 1 + ext.len());
        }
        assert(decimal(j).len() == decimal(k).len());
        let lo = stem.len() + 1;
        let hi = lo + decimal(j).len();
        assert(cj.subrange(lo as int, hi as int) =~= decimal(j));
        assert(ck.subrange(lo as int, hi as int) =~= decimal(k));
        lemma_decimal_injective(j, k);
    }
}

/// Index of the last `.` in `name`, if any.
fn find_last_dot(name: &Vec<char>) -> (r: Option<usize>)
    ensures
        match r {
            Some(d) => d == last_dot(name@),
            None => last_dot(name@) == -1,
        },
{
    let mut i: usize = name.len();
    while i > 0
        invariant
            i <= name@.len(),
            last_dot(name@) == last_dot_below(name@, i as int),
        decreases i,
    {
        if name[i - 1] == '.' {
            return Some(i - 1);
        }
        i = i - 1;
    }
    None
}

/// The `k`-th candidate name for `name`.
pub fn candidate(name: &str, k: u64) -> (r: String)
    ensures
        r@ == candidate_name(name@, k as nat),
{
    if k == 0 {
        return name.to_owned();
    }
    let chars = chars_of(name);
    let found = find_last_dot(&chars);
    proof {
        lemma_last_dot_range(name@, name@.len() as int);
        reveal_strlit("_");
        reveal_strlit(".");
    }
    let n = chars.len();
    let dot: usize = match found {
        Some(d) => d,
        None => 0,
    };
    if dot == 0 {
        let mut out = name.to_owned();
        out.append("_");
        append_decimal(&mut out, k);
        out
    } else {
        let d = dot;
        let mut out = name.substring_char(0, d).to_owned();
        out.append("_");
        append_decimal(&mut out, k);
        if d + 1 < n {
            out.append(".");
            out.append(name.substring_char(d + 1, n));
        } else {
            assert(ext_of(name@).len() == 0);
        }
        out
    }
}

/// Whether some entry of `names` equals `s`.
fn name_taken(names: &Vec<String>, s: &String) -> (r: bool)
    ensures
        r == strings_view(names@).contains(s@),
{
    let mut j: usize = 0;
    while j < names.len()
        invariant
            j <= names@.len(),
            forall|t: int| 0 <= t < j ==> #[trigger] names@[t]@ != s@,
        decreases names@.len() - j,
    {
        if names[j] == *s {
            assert(strings_view(names@)[j as int] == s@);
            return true;
        }
        j = j + 1;
    }
    assert forall|t: int| 0 <= t < strings_view(names@).len() implies strings_view(names@)[t]
        != s@ by {
        assert(names@[t]@ != s@);
    }
    false
}

/// The name under which a file called `file_name` is stored in a directory that
/// already holds `existing`: the name itself if free, else the first free of
/// `stem_1.ext`, `stem_2.ext`, ...
pub fn resolve_duplicate_filename(file_name: &str, existing: &Vec<String>) -> (r: String)
    ensures
        first_free_name(file_name@, strings_view(existing@).to_set(), r@),
{
    let ghost taken = strings_view(existing@).to_set();
    let ghost mut remaining = taken;
    proof {
        strings_view(existing@).lemma_cardinality_of_set();
    }
    let count = existing.len();
    let mut k: u64 = 0;
    loop
        invariant
            count == existing@.len(),
            taken == strings_view(existing@).to_set(),
            remaining.finite(),
            remaining.subset_of(taken),
            taken.len() <= existing@.len(),
            k + remaining.len() == taken.len(),
            forall|j: nat| j < k ==> taken.contains(#[trigger] candidate_name(file_name@, j)),
            forall|x: Seq<char>|
                taken.contains(x) && (forall|j: nat| j < k ==> x != #[trigger] candidate_name(
                    file_name@,
                    j,
                )) ==> #[trigger] remaining.contains(x),
        decreases remaining.len(),
    {
        let c = candidate(file_name, k);
        if !name_taken(existing, &c) {
            proof {
                assert(!taken.contains(c@));
                assert(candidate_name(file_name@, k as nat) == c@);
            }
            return c;
        }
        proof {
            assert(taken.contains(c@));
            assert forall|j: nat| j < k implies c@ != #[trigger] candidate_name(file_name@, j) by {
                lemma_candidates_distinct(file_name@, j, k as nat);
            }
            assert(remaining.contains(c@));
            let old_remaining = remaining;
            remaining = remaining.remove(c@);
            assert(remaining.len() == old_remaining.len() - 1);
            assert(k + 1 <= existing@.len());
            assert forall|x: Seq<char>|
                taken.contains(x) && (forall|j: nat| j < k + 1 ==> x != #[trigger] candidate_name(
                    file_name@,
                    j,
                )) implies #[trigger] remaining.contains(x) by {
                assert(x != candidate_name(file_name@, k as nat));
                assert forall|j: nat| j < k implies x != #[trigger] candidate_name(file_name@, j) by {
                    assert(j < k + 1);
                }
            }
        }
        k = k + 1;
    }
}

/// Only one name is the first free one.
pub proof fn lemma_first_free_unique(
    name: Seq<char>,
    taken: Set<Seq<char>>,
    r1: Seq<char>,
    r2: Seq<char>,
)
    requires
        first_free_name(name, taken, r1),
        first_free_name(name, taken, r2),
    ensures
        r1 == r2,
{
    let k1 = choose|k: nat|
        #[trigger] candidate_name(name, k) == r1 && !taken.contains(r1) && forall|j: nat|
            j < k ==> taken.contains(#[trigger] candidate_name(name, j));
    let k2 = choose|k: nat|
        #[trigger] candidate_name(name, k) == r2 && !taken.contains(r2) && forall|j: nat|
            j < k ==> taken.contains(#[trigger] candidate_name(name, j));
    if k1 < k2 {
        assert(taken.contains(candidate_name(name, k1)));
    } else if k2 < k1 {
        assert(taken.contains(candidate_name(name, k2)));
    }
}

/// A name that is not taken is kept as it is.
pub proof fn lemma_free_name_kept(name: Seq<char>, taken: Set<Seq<char>>)
    requires
        !taken.contains(name),
    ensures
        first_free_name(name, taken, name),
{
    assert(candidate_name(name, 0) == name);
}

/// Index of the last of the first `n` entries of `srcs` equal to `p`, or -1.
pub open spec fn last_match(srcs: Seq<Seq<char>>, p: Seq<char>, n: int) -> int
    decreases n,
{
    if n <= 0 || n > srcs.len() {
        -1
    } else if srcs[n - 1] == p {
        n - 1
    } else {
        last_match(srcs, p, n - 1)
    }
}

/// Entries of a folder that have both a name and a source.
pub open spec fn entry_count(g: FolderPreview) -> int {
    if g.sources@.len() < g.files@.len() {
        g.sources@.len() as int
    } else {
        g.files@.len() as int
    }
}

/// Directory and file name that `folders` assign to the source `p`; the last
/// assignment counts.
pub open spec fn destination_of(folders: Seq<FolderPreview>, p: Seq<char>) -> Option<
    (Seq<char>, Seq<char>),
>
    decreases folders.len(),
{
    if folders.len() == 0 {
        None
    } else {
        let g = folders.last();
        let t = last_match(strings_view(g.sources@), p, entry_count(g));
        if t >= 0 {
            Some((g.path@, g.files@[t]@))
        } else {
            destination_of(folders.drop_last(), p)
        }
    }
}

/// A file `name` inside directory `dir`.
pub open spec fn join_path(dir: Seq<char>, name: Seq<char>) -> Seq<char> {
    dir + "/"@ + name
}

pub open spec fn target_view(t: Option<(String, String)>) -> Option<(Seq<char>, Seq<char>)> {
    match t {
        Some((d, n)) => Some((d@, n@)),
        None => None,
    }
}

/// Directory and file name that `folders` assign to the source `source`.
pub fn find_destination(folders: &Vec<FolderPreview>, source: &String) -> (r: Option<
    (String, String),
>)
    ensures
        target_view(r) == destination_of(folders@, source@),
{
    let mut k: usize = folders.len();
    proof {
        assert(folders@.take(k as int) =~= folders@);
    }
    while k > 0
        invariant
            k <= folders@.len(),
            destination_of(folders@, source@) == destination_of(folders@.take(k as int), source@),
        decreases k,
    {
        let g = &folders[k - 1];
        let n = if g.sources.len() < g.files.len() {
            g.sources.len()
        } else {
            g.files.len()
        };
        let mut t: usize = n;
        while t > 0
            invariant
                0 < k <= folders@.len(),
                *g == folders@[k - 1],
                destination_of(folders@, source@) == destination_of(folders@.take(k as int), source@),
                t <= n,
                n == entry_count(*g),
                last_match(strings_view(g.sources@), source@, n as int) == last_match(
                    strings_view(g.sources@),
                    source@,
                    t as int,
                ),
            decreases t,
        {
            if g.sources[t - 1] == *source {
                proof {
                    assert(strings_view(g.sources@)[t - 1] == source@);
                    assert(folders@.take(k as int).last() == *g);
                }
                return Some((g.path.clone(), g.files[t - 1].clone()));
            }
            proof {
                assert(strings_view(g.sources@)[t - 1] != source@);
            }
            t = t - 1;
        }
        proof {
            assert(folders@.take(k as int).last() == *g);
            assert(folders@.take(k as int).drop_last() =~= folders@.take(k - 1));
        }
        k = k - 1;
    }
    None
}

/// Where the work on the file in hand stands.
#[derive(Debug, Clone)]
pub enum Phase {
    /// The source is to be checked.
    Check,
    /// The destination directory is to be created.
    MakeDir,
    /// The destination directory is to be listed.
    List,
    /// The source is to be copied to `target`.
    Transfer { target: String },
    /// The source, copied to `target`, is to be deleted.
    Remove { target: String },
}

/// What the caller is to do next on the file system.
#[derive(Debug, Clone)]
pub enum Step {
    /// Report whether `path` exists.
    CheckSource { path: String },
    /// Create `dir` with its parents, and report the error if that fails.
    CreateDir { dir: String },
    /// Report the names of the entries of `dir`.
    ListDir { dir: String },
    /// Copy the file `from` to `to`, and report the error if that fails.
    Copy { from: String, to: String },
    /// Delete `path`, and report the error if that fails.
    RemoveSource { path: String },
    /// All files are done.
    Finish,
}

/// What the caller found on doing a step.
#[derive(Debug)]
pub enum Event {
    SourceExists(bool),
    DirCreated(Result<(), String>),
    DirListed(Vec<String>),
    Copied(Result<u64, String>),
    SourceRemoved(Result<(), String>),
}

/// An organisation plan being carried out, one source file after another.
#[derive(Debug, Clone)]
pub struct Execution {
    pub mode: OperationMode,
    pub sources: Vec<FileMetadata>,
    /// Destination directory and file name of each source, where the plan has one.
    pub targets: Vec<Option<(String, String)>>,
    /// Index of the file in hand.
    pub current: usize,
    pub phase: Phase,
    pub operations: Vec<FileOperation>,
    pub successful_count: usize,
    pub failed_count: usize,
    pub skipped_count: usize,
    pub total_size_processed: u64,
}

/// How many of `ops` have status `st`.
pub open spec fn count_status(ops: Seq<FileOperation>, st: OperationStatus) -> nat
    decreases ops.len(),
{
    if ops.len() == 0 {
        0
    } else {
        count_status(ops.drop_last(), st) + if ops.last().status == st {
            1nat
        } else {
            0nat
        }
    }
}

/// The path that a transfer or a removal phase is about.
pub open spec fn phase_target(p: Phase) -> Seq<char> {
    match p {
        Phase::Transfer { target } => target@,
        Phase::Remove { target } => target@,
        _ => Seq::empty(),
    }
}

pub open spec fn message_view(m: Option<String>) -> Option<Seq<char>> {
    match m {
        Some(s) => Some(s@),
        None => None,
    }
}

pub open spec fn saturating_sum(a: u64, b: u64) -> u64 {
    if a + b > u64::MAX {
        u64::MAX
    } else {
        (a + b) as u64
    }
}

impl Execution {
    /// Counts agree with the outcomes, one outcome per finished file, and a file
    /// past the check has a destination.
    pub open spec fn wf(&self) -> bool {
        &&& self.targets@.len() == self.sources@.len()
        &&& self.current <= self.sources@.len()
        &&& self.operations@.len() == self.current
        &&& self.successful_count == count_status(self.operations@, OperationStatus::Success)
        &&& self.failed_count == count_status(self.operations@, OperationStatus::Failed)
        &&& self.skipped_count == count_status(self.operations@, OperationStatus::Skipped)
        &&& self.current == self.sources@.len() ==> self.phase is Check
        &&& !(self.phase is Check) ==> self.targets@[self.current as int] is Some
    }

    /// The destination directory and file name of the file in hand.
    pub open spec fn target(&self) -> (Seq<char>, Seq<char>) {
        target_view(self.targets@[self.current as int])->0
    }

    /// `new` is `old` with the file in hand finished with this outcome.
    pub open spec fn recorded(
        old: Execution,
        new: Execution,
        status: OperationStatus,
        destination: Seq<char>,
        message: Option<Seq<char>>,
    ) -> bool {
        let op = new.operations@.last();
        &&& new.operations@.len() == old.operations@.len() + 1
        &&& new.operations@.drop_last() == old.operations@
        &&& op.source_path@ == old.sources@[old.current as int].path@
        &&& op.destination_path@ == destination
        &&& op.status == status
        &&& message_view(op.error_message) == message
        &&& new.current == old.current + 1
        &&& new.phase is Check
        &&& new.mode == old.mode
        &&& new.sources == old.sources
        &&& new.targets == old.targets
        &&& new.successful_count == old.successful_count + if status == OperationStatus::Success {
            1int
        } else {
            0int
        }
        &&& new.failed_count == old.failed_count + if status == OperationStatus::Failed {
            1int
        } else {
            0int
        }
        &&& new.skipped_count == old.skipped_count + if status == OperationStatus::Skipped {
            1int
        } else {
            0int
        }
        &&& new.total_size_processed == if status == OperationStatus::Success {
            saturating_sum(
                old.total_size_processed,
                old.sources@[old.current as int].file_size,
            )
        } else {
            old.total_size_processed
        }
    }

    /// `new` is `old` moved on to `phase` for the same file.
    pub open spec fn advanced(old: Execution, new: Execution, phase: Phase) -> bool {
        new == Execution { phase, ..old }
    }

    /// The effect of `event` on the state `old`.
    pub open spec fn handled(old: Execution, event: Event, new: Execution) -> bool {
        if old.current >= old.sources@.len() {
            new == old
        } else {
            let (dir, name) = old.target();
            match (old.phase, event) {
                (Phase::Check, Event::SourceExists(false)) => Self::recorded(
                    old,
                    new,
                    OperationStatus::Skipped,
                    Seq::empty(),
                    Some("Source file does not exist"@),
                ),
                (Phase::Check, Event::SourceExists(true)) => if old.targets@[old.current as int] is None {
                    Self::recorded(
                        old,
                        new,
                        OperationStatus::Skipped,
                        Seq::empty(),
                        Some("No destination found"@),
                    )
                } else {
                    Self::advanced(old, new, Phase::MakeDir)
                },
                (Phase::MakeDir, Event::DirCreated(Err(e))) => Self::recorded(
                    old,
                    new,
                    OperationStatus::Failed,
                    join_path(dir, name),
                    Some("Failed to create directory: "@ + e@),
                ),
                (Phase::MakeDir, Event::DirCreated(Ok(_))) => Self::advanced(old, new, Phase::List),
                (Phase::List, Event::DirListed(names)) => new.phase is Transfer && Self::advanced(
                    old,
                    new,
                    new.phase,
                ) && exists|free: Seq<char>|
                    first_free_name(name, strings_view(names@).to_set(), free) && #[trigger] join_path(
                        dir,
                        free,
                    ) == phase_target(new.phase),
                (Phase::Transfer { target }, Event::Copied(Err(e))) => Self::recorded(
                    old,
                    new,
                    OperationStatus::Failed,
                    target@,
                    Some(e@),
                ),
                (Phase::Transfer { target }, Event::Copied(Ok(_))) => if old.mode
                    == OperationMode::Copy {
                    Self::recorded(old, new, OperationStatus::Success, target@, None)
                } else {
                    Self::advanced(old, new, Phase::Remove { target })
                },
                (Phase::Remove { target }, Event::SourceRemoved(_)) => Self::recorded(
                    old,
                    new,
                    OperationStatus::Success,
                    target@,
                    None,
                ),
                _ => new == old,
            }
        }
    }
}

proof fn lemma_count_status(ops: Seq<FileOperation>)
    ensures
        count_status(ops, OperationStatus::Success) + count_status(ops, OperationStatus::Failed)
            + count_status(ops, OperationStatus::Skipped) == ops.len(),
    decreases ops.len(),
{
    if ops.len() > 0 {
        lemma_count_status(ops.drop_last());
    }
}

/// `dir/name`
fn join(dir: &String, name: &String) -> (r: String)
    ensures
        r@ == join_path(dir@, name@),
{
    let mut out = dir.clone();
    out.append("/");
    out.append(name.as_str());
    out
}

impl Execution {
    /// Starts carrying out `plan` on `sources`, in their order.
    pub fn new(plan: &OrganizationPlan, sources: Vec<FileMetadata>) -> (r: Execution)
        ensures
            r.wf(),
            r.mode == plan.mode,
            r.sources@ == sources@,
            forall|i: int|
                0 <= i < sources@.len() ==> #[trigger] target_view(r.targets@[i]) == destination_of(
                    plan.folders@,
                    sources@[i].path@,
                ),
            r.current == 0,
            r.phase is Check,
            r.operations@.len() == 0,
            r.total_size_processed == 0,
    {
        let mut targets: Vec<Option<(String, String)>> = Vec::new();
        let mut i: usize = 0;
        while i < sources.len()
            invariant
                i <= sources@.len(),
                targets@.len() == i,
                forall|j: int|
                    0 <= j < i ==> #[trigger] target_view(targets@[j]) == destination_of(
                        plan.folders@,
                        sources@[j].path@,
                    ),
            decreases sources@.len() - i,
        {
            targets.push(find_destination(&plan.folders, &sources[i].path));
            i = i + 1;
        }
        let r = Execution {
            mode: plan.mode,
            sources,
            targets,
            current: 0,
            phase: Phase::Check,
            operations: Vec::new(),
            successful_count: 0,
            failed_count: 0,
            skipped_count: 0,
            total_size_processed: 0,
        };
        r
    }

    /// What the caller is to do next.
    pub fn next_step(&self) -> (r: Step)
        requires
            self.wf(),
        ensures
            self.current >= self.sources@.len() ==> r is Finish,
            self.current < self.sources@.len() && self.phase is Check ==> (r matches Step::CheckSource {
                path,
            } && path@ == self.sources@[self.current as int].path@),
            self.phase is MakeDir ==> (r matches Step::CreateDir { dir } && dir@ == self.target().0),
            self.phase is List ==> (r matches Step::ListDir { dir } && dir@ == self.target().0),
            self.phase is Transfer ==> (r matches Step::Copy { from, to } && from@
                == self.sources@[self.current as int].path@ && to@ == phase_target(self.phase)),
            self.phase is Remove ==> (r matches Step::RemoveSource { path } && path@
                == self.sources@[self.current as int].path@),
    {
        if self.current >= self.sources.len() {
            return Step::Finish;
        }
        let src = &self.sources[self.current];
        match &self.phase {
            Phase::Check => Step::CheckSource { path: src.path.clone() },
            Phase::MakeDir => match &self.targets[self.current] {
                Some((dir, _)) => Step::CreateDir { dir: dir.clone() },
                None => Step::Finish,
            },
            Phase::List => match &self.targets[self.current] {
                Some((dir, _)) => Step::ListDir { dir: dir.clone() },
                None => Step::Finish,
            },
            Phase::Transfer { target } => Step::Copy { from: src.path.clone(), to: target.clone() },
            Phase::Remove { target } => Step::RemoveSource { path: src.path.clone() },
        }
    }

    /// Finishes the file in hand with this outcome and moves to the next.
    fn record(&mut self, status: OperationStatus, destination: String, message: Option<String>)
        requires
            old(self).wf(),
            old(self).current < old(self).sources@.len(),
        ensures
            final(self).wf(),
            Self::recorded(*old(self), *final(self), status, destination@, message_view(message)),
    {
        let n = self.sources.len();
        let src = &self.sources[self.current];
        let size = src.file_size;
        let op = FileOperation {
            source_path: src.path.clone(),
            destination_path: destination,
            status,
            error_message: message,
        };
        proof {
            lemma_count_status(self.operations@);
        }
        let ghost before = self.operations@;
        self.operations.push(op);
        proof {
            assert(self.operations@.drop_last() =~= before);
        }
        match status {
            OperationStatus::Success => {
                self.successful_count = self.successful_count + 1;
                self.total_size_processed = self.total_size_processed.saturating_add(size);
            },
            OperationStatus::Failed => {
                self.failed_count = self.failed_count + 1;
            },
            OperationStatus::Skipped => {
                self.skipped_count = self.skipped_count + 1;
            },
        }
        self.current = self.current + 1;
        self.phase = Phase::Check;
    }

    /// Takes in what the caller found on doing the step that `next_step` asked for.
    pub fn handle(&mut self, event: Event)
        requires
            old(self).wf(),
        ensures
            final(self).wf(),
            Self::handled(*old(self), event, *final(self)),
    {
        if self.current >= self.sources.len() {
            return;
        }
        let cur = self.current;
        match event {
            Event::SourceExists(exists) => {
                match &self.phase {
                    Phase::Check => {},
                    _ => return,
                }
                if !exists {
                    self.record(
                        OperationStatus::Skipped,
                        String::new(),
                        Some("Source file does not exist".to_owned()),
                    );
                } else if self.targets[cur].is_none() {
                    self.record(
                        OperationStatus::Skipped,
                        String::new(),
                        Some("No destination found".to_owned()),
                    );
                } else {
                    self.phase = Phase::MakeDir;
                }
            },
            Event::DirCreated(result) => {
                match &self.phase {
                    Phase::MakeDir => {},
                    _ => return,
                }
                match result {
                    Err(e) => {
                        let destination = match &self.targets[cur] {
                            Some((dir, name)) => join(dir, name),
                            None => String::new(),
                        };
                        let mut msg = "Failed to create directory: ".to_owned();
                        msg.append(e.as_str());
                        self.record(OperationStatus::Failed, destination, Some(msg));
                    },
                    Ok(()) => {
                        self.phase = Phase::List;
                    },
                }
            },
            Event::DirListed(names) => {
                match &self.phase {
                    Phase::List => {},
                    _ => return,
                }
                let ghost (dir_v, name_v) = self.target();
                let ghost taken = strings_view(names@).to_set();
                let mut free = String::new();
                let target = match &self.targets[cur] {
                    Some((dir, name)) => {
                        free = resolve_duplicate_filename(name.as_str(), &names);
                        join(dir, &free)
                    },
                    None => String::new(),
                };
                proof {
                    assert(first_free_name(name_v, taken, free@));
                    assert(join_path(dir_v, free@) == target@);
                }
                self.phase = Phase::Transfer { target };
                proof {
                    assert(join_path(dir_v, free@) == phase_target(self.phase));
                }
            },
            Event::Copied(result) => {
                let target = match &self.phase {
                    Phase::Transfer { target } => target.clone(),
                    _ => return,
                };
                match result {
                    Err(e) => {
                        self.record(OperationStatus::Failed, target, Some(e));
                    },
                    Ok(_) => {
                        if self.mode == OperationMode::Copy {
                            self.record(OperationStatus::Success, target, None);
                        } else {
                            self.phase = Phase::Remove { target };
                        }
                    },
                }
            },
            Event::SourceRemoved(_) => {
                let target = match &self.phase {
                    Phase::Remove { target } => target.clone(),
                    _ => return,
                };
                self.record(OperationStatus::Success, target, None);
            },
        }
    }

    /// The report of a finished execution.
    pub fn finish(self, duration_ms: u64, timestamp: Timestamp) -> (r: OperationResult)
        requires
            self.wf(),
        ensures
            r.operations@ == self.operations@,
            r.successful_count == self.successful_count,
            r.failed_count == self.failed_count,
            r.skipped_count == self.skipped_count,
            r.successful_count + r.failed_count + r.skipped_count == r.operations@.len(),
            r.success == (r.failed_count == 0 && r.skipped_count < r.operations@.len()),
            r.total_size_processed == self.total_size_processed,
            r.duration_ms == duration_ms,
            r.timestamp == timestamp,
    {
        proof {
            lemma_count_status(self.operations@);
        }
        let success = self.failed_count == 0 && self.skipped_count < self.operations.len();
        OperationResult {
            success,
            operations: self.operations,
            successful_count: self.successful_count,
            failed_count: self.failed_count,
            skipped_count: self.skipped_count,
            total_size_processed: self.total_size_processed,
            duration_ms,
            timestamp,
        }
    }
}

/// The names in directory `dir` of a file system given as (directory, name) pairs.
pub open spec fn names_in(fs: Set<(Seq<char>, Seq<char>)>, dir: Seq<char>) -> Set<Seq<char>> {
    Set::new(|n: Seq<char>| fs.contains((dir, n)))
}

/// The name under which the file `t` (directory, name) lands in `fs`.
pub open spec fn placed_name(fs: Set<(Seq<char>, Seq<char>)>, t: (Seq<char>, Seq<char>)) -> Seq<
    char,
> {
    choose|r: Seq<char>| first_free_name(t.1, names_in(fs, t.0), r)
}

/// The file system after the files `order` have been stored into `fs` one after
/// another, each under its first free name, as the listing step resolves it.
pub open spec fn place_all(
    fs: Set<(Seq<char>, Seq<char>)>,
    order: Seq<(Seq<char>, Seq<char>)>,
) -> Set<(Seq<char>, Seq<char>)>
    decreases order.len(),
{
    if order.len() == 0 {
        fs
    } else {
        let prev = place_all(fs, order.drop_last());
        prev.insert((order.last().0, placed_name(prev, order.last())))
    }
}

proof fn lemma_place_all_union(fs: Set<(Seq<char>, Seq<char>)>, order: Seq<(Seq<char>, Seq<char>)>)
    requires
        order.no_duplicates(),
        forall|i: int| 0 <= i < order.len() ==> !fs.contains(#[trigger] order[i]),
    ensures
        place_all(fs, order) == fs.union(order.to_set()),
        forall|i: int|
            0 <= i < order.len() ==> #[trigger] placed_name(place_all(fs, order.take(i)), order[i])
                == order[i].1,
    decreases order.len(),
{
    if order.len() > 0 {
        let init = order.drop_last();
        let last = order.last();
        assert forall|i: int| 0 <= i < init.len() implies !fs.contains(#[trigger] init[i]) by {
            assert(init[i] == order[i]);
        }
        lemma_place_all_union(fs, init);
        let prev = place_all(fs, init);
        assert(!init.contains(last)) by {
            if init.contains(last) {
                let j = choose|j: int| 0 <= j < init.len() && init[j] == last;
                assert(order[j] == order[order.len() - 1]);
            }
        }
        assert(!prev.contains(last));
        assert(!names_in(prev, last.0).contains(last.1));
        lemma_free_name_kept(last.1, names_in(prev, last.0));
        let r = placed_name(prev, last);
        lemma_first_free_unique(last.1, names_in(prev, last.0), r, last.1);
        assert(place_all(fs, order) =~= fs.union(order.to_set())) by {
            assert forall|x: (Seq<char>, Seq<char>)| #[trigger] order.to_set().contains(x) implies init.to_set().contains(x)
                || x == last by {
                let j = choose|j: int| 0 <= j < order.len() && order[j] == x;
                if j < order.len() - 1 {
                    assert(init[j] == x);
                }
            }
            assert forall|x: (Seq<char>, Seq<char>)| #[trigger] init.to_set().contains(x) implies order.to_set().contains(x) by {
                let j = choose|j: int| 0 <= j < init.len() && init[j] == x;
                assert(order[j] == x);
            }
            assert(order.to_set().contains(last)) by {
                assert(order[order.len() - 1] == last);
            }
        }
        assert forall|i: int| 0 <= i < order.len() implies #[trigger] placed_name(
            place_all(fs, order.take(i)),
            order[i],
        ) == order[i].1 by {
            if i < order.len() - 1 {
                assert(order.take(i) =~= init.take(i));
                assert(order[i] == init[i]);
            } else {
                assert(order.take(i) =~= init);
            }
        }
    }
}

/// Order independence for disjoint destinations: files whose destinations are
/// distinct and not yet taken each land at their own destination, and any order
/// of processing them leaves the same files behind.
pub proof fn lemma_disjoint_placement_order_independent(
    fs: Set<(Seq<char>, Seq<char>)>,
    a: Seq<(Seq<char>, Seq<char>)>,
    b: Seq<(Seq<char>, Seq<char>)>,
)
    requires
        a.no_duplicates(),
        b.no_duplicates(),
        a.to_set() == b.to_set(),
        forall|i: int| 0 <= i < a.len() ==> !fs.contains(#[trigger] a[i]),
    ensures
        place_all(fs, a) == place_all(fs, b),
        place_all(fs, a) == fs.union(a.to_set()),
        forall|i: int|
            0 <= i < a.len() ==> #[trigger] placed_name(place_all(fs, a.take(i)), a[i]) == a[i].1,
        forall|i: int|
            0 <= i < b.len() ==> #[trigger] placed_name(place_all(fs, b.take(i)), b[i]) == b[i].1,
{
    assert forall|i: int| 0 <= i < b.len() implies !fs.contains(#[trigger] b[i]) by {
        assert(b.to_set().contains(b[i]));
        assert(a.to_set().contains(b[i]));
        let j = choose|j: int| 0 <= j < a.len() && a[j] == b[i];
        assert(!fs.contains(a[j]));
    }
    lemma_place_all_union(fs, a);
    lemma_place_all_union(fs, b);
}

} // verus!
