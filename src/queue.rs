use vstd::prelude::*;

use crate::paths::{
    file_name, file_name_of, has_recording_extension, is_recording_name, join, join_path,
    lemma_lex_lt_asymmetric, lemma_lex_lt_irreflexive, lemma_lex_lt_transitive, lex_less, lex_lt,
};

verus! {

/// One of the three directories that a recording passes through.
#[derive(Clone, Copy, Debug, PartialEq, Eq, Structural)]
pub enum Place {
    Input,
    Staging,
    Output,
}

/// A rename of the file `name` from one directory of the queue into another.
pub struct Move {
    pub name: String,
    pub from: Place,
    pub to: Place,
}

/// A file listed in the input directory, with its modification time.
pub struct Entry {
    pub path: String,
    pub modified: u128,
}

/// A claimed recording: its path inside the staging directory.
pub struct Recording(pub String);

#[derive(Clone, Copy, Debug, PartialEq, Eq, Structural)]
pub enum QueueError {
    /// The input directory is not an absolute path.
    InvalidInput,
    /// A path has no final file name component.
    NoFileName,
}

/// A work queue over a directory: files are claimed from the input directory
/// into a staging subdirectory and completed into an output directory.
#[derive(Debug)]
pub struct DirRecordingQueue {
    input_dir: String,
    queue_dir: String,
    output_dir: String,
}

/// The file names held by each directory of the queue.
pub struct Dirs {
    pub input: Set<Seq<char>>,
    pub staging: Set<Seq<char>>,
    pub output: Set<Seq<char>>,
}

pub open spec fn contents(d: Dirs, p: Place) -> Set<Seq<char>> {
    match p {
        Place::Input => d.input,
        Place::Staging => d.staging,
        Place::Output => d.output,
    }
}

pub open spec fn with_contents(d: Dirs, p: Place, s: Set<Seq<char>>) -> Dirs {
    match p {
        Place::Input => Dirs { input: s, ..d },
        Place::Staging => Dirs { staging: s, ..d },
        Place::Output => Dirs { output: s, ..d },
    }
}

/// The directories after renaming `m.name` from `m.from` into `m.to`.
pub open spec fn apply_move(d: Dirs, m: Move) -> Dirs {
    let d1 = with_contents(d, m.from, contents(d, m.from).remove(m.name@));
    with_contents(d1, m.to, contents(d1, m.to).insert(m.name@))
}

/// The directories after the moves of `ms`, in order.
pub open spec fn apply_moves(d: Dirs, ms: Seq<Move>) -> Dirs
    decreases ms.len(),
{
    if ms.len() == 0 {
        d
    } else {
        apply_move(apply_moves(d, ms.drop_last()), ms.last())
    }
}

/// An entry that the queue may claim: its file name has the recording extension.
pub open spec fn is_eligible(e: Entry) -> bool {
    match file_name_of(e.path@) {
        Some(n) => is_recording_name(n),
        None => false,
    }
}

/// Entry `a` is claimed before entry `b`: it was modified later, or at the
/// same time with a path that comes first (within one directory, the file
/// name that comes first).
pub open spec fn precedes(a: Entry, b: Entry) -> bool {
    a.modified > b.modified || (a.modified == b.modified && lex_lt(a.path@, b.path@))
}

/// Entry `i` is the one to claim: eligible, and no eligible entry precedes it.
pub open spec fn is_latest(s: Seq<Entry>, i: int) -> bool {
    &&& 0 <= i < s.len()
    &&& is_eligible(s[i])
    &&& forall|j: int| 0 <= j < s.len() && #[trigger] is_eligible(s[j]) ==> !precedes(s[j], s[i])
}

proof fn lemma_precedes_order(a: Entry, b: Entry, c: Entry)
    ensures
        !precedes(a, a),
        !(precedes(a, b) && precedes(b, a)),
        precedes(a, b) && precedes(b, c) ==> precedes(a, c),
{
    lemma_lex_lt_irreflexive(a.path@);
    lemma_lex_lt_asymmetric(a.path@, b.path@);
    if precedes(a, b) && precedes(b, c) && a.modified == c.modified {
        lemma_lex_lt_transitive(a.path@, b.path@, c.path@);
    }
}

/// `m` claims the latest eligible entry of the listing `s` into staging.
pub open spec fn is_claim_of(s: Seq<Entry>, m: Move) -> bool {
    &&& m.from == Place::Input
    &&& m.to == Place::Staging
    &&& exists|i: int| #[trigger] is_latest(s, i) && file_name_of(s[i].path@) == Some(m.name@)
}

/// `ms` returns each file of the staging listing `staged` to the input directory.
pub open spec fn is_reconcile_plan(staged: Seq<Seq<char>>, ms: Seq<Move>) -> bool {
    &&& ms.len() == staged.len()
    &&& forall|i: int|
        0 <= i < ms.len() ==> {
            &&& file_name_of(#[trigger] staged[i]) == Some(ms[i].name@)
            &&& ms[i].from == Place::Staging
            &&& ms[i].to == Place::Input
        }
}

/// Some file of the listing `staged` has the name `n`.
pub open spec fn lists(staged: Seq<Seq<char>>, n: Seq<char>) -> bool {
    exists|i: int| 0 <= i < staged.len() && file_name_of(#[trigger] staged[i]) == Some(n)
}

/// Some move of `ms` renames a file called `n`.
pub open spec fn moved_name(ms: Seq<Move>, n: Seq<char>) -> bool {
    exists|i: int| 0 <= i < ms.len() && (#[trigger] ms[i]).name@ == n
}

impl DirRecordingQueue {
    pub closed spec fn input_path(&self) -> Seq<char> {
        self.input_dir@
    }

    pub closed spec fn staging_path(&self) -> Seq<char> {
        self.queue_dir@
    }

    pub closed spec fn output_path(&self) -> Seq<char> {
        self.output_dir@
    }

    pub open spec fn dir_path(&self, p: Place) -> Seq<char> {
        match p {
            Place::Input => self.input_path(),
            Place::Staging => self.staging_path(),
            Place::Output => self.output_path(),
        }
    }

    /// Lays out a queue over the canonical input directory `input_dir`:
    /// staging in its subdirectory `in_process`, output in `output_dir` or
    /// else in its subdirectory `processed`.
    pub fn try_new(input_dir: String, output_dir: Option<String>) -> (r: Result<
        Self,
        QueueError,
    >)
        ensures
            r is Ok <==> (input_dir@.len() > 0 && input_dir@[0] == '/'),
            r is Err ==> r == Err::<Self, QueueError>(QueueError::InvalidInput),
            r matches Ok(q) ==> {
                &&& q.input_path() == input_dir@
                &&& q.staging_path() == join_path(input_dir@, "in_process"@)
                &&& q.output_path() == match output_dir {
                    Some(o) => o@,
                    None => join_path(input_dir@, "processed"@),
                }
            },
    {
        if input_dir.as_str().unicode_len() == 0 || input_dir.as_str().get_char(0) != '/' {
            return Err(QueueError::InvalidInput);
        }
        let queue_dir = join(input_dir.as_str(), "in_process");
        let output_dir = match output_dir {
            Some(o) => o,
            None => join(input_dir.as_str(), "processed"),
        };
        Ok(DirRecordingQueue { input_dir, queue_dir, output_dir })
    }

    pub fn input_dir(&self) -> (r: &String)
        ensures
            r@ == self.input_path(),
    {
        &self.input_dir
    }

    pub fn staging_dir(&self) -> (r: &String)
        ensures
            r@ == self.staging_path(),
    {
        &self.queue_dir
    }

    pub fn output_dir(&self) -> (r: &String)
        ensures
            r@ == self.output_path(),
    {
        &self.output_dir
    }

    /// The path of the file `name` inside the directory `p`.
    pub fn path_of(&self, p: Place, name: &str) -> (r: String)
        ensures
            r@ == join_path(self.dir_path(p), name@),
    {
        match p {
            Place::Input => join(self.input_dir.as_str(), name),
            Place::Staging => join(self.queue_dir.as_str(), name),
            Place::Output => join(self.output_dir.as_str(), name),
        }
    }

    /// The glob pattern that lists every file held in staging.
    pub fn staging_pattern(&self) -> (r: String)
        ensures
            r@ == self.staging_path() + "/*"@,
    {
        let mut r = self.queue_dir.clone();
        r.append("/*");
        r
    }

    /// The recording that the move `m` leaves in its target directory.
    pub fn recording(&self, m: &Move) -> (r: Recording)
        ensures
            r.0@ == join_path(self.dir_path(m.to), m.name@),
    {
        Recording(self.path_of(m.to, m.name.as_str()))
    }

    fn move_between(path: &str, from: Place, to: Place) -> (r: Result<Move, QueueError>)
        ensures
            match r {
                Ok(m) => file_name_of(path@) == Some(m.name@) && m.from == from && m.to == to,
                Err(e) => file_name_of(path@) is None && e == QueueError::NoFileName,
            },
    {
        match file_name(path) {
            Some(name) => Ok(Move { name, from, to }),
            None => Err(QueueError::NoFileName),
        }
    }

    /// The index of the entry to claim: the latest modified among those with
    /// the recording extension, and among equally recent ones the one whose
    /// path comes first.
    pub fn find_latest_new_recording(&self, entries: &Vec<Entry>) -> (r: Option<usize>)
        ensures
            match r {
                Some(i) => is_latest(entries@, i as int),
                None => forall|j: int| 0 <= j < entries@.len() ==> !is_eligible(#[trigger] entries@[j]),
            },
    {
        let mut best: Option<usize> = None;
        let mut i: usize = 0;
        while i < entries.len()
            invariant
                i <= entries@.len(),
                match best {
                    None => forall|j: int| 0 <= j < i ==> !is_eligible(#[trigger] entries@[j]),
                    Some(b) => {
                        &&& b < i
                        &&& is_eligible(entries@[b as int])
                        &&& forall|j: int|
                            0 <= j < i && #[trigger] is_eligible(entries@[j]) ==> !precedes(
                                entries@[j],
                                entries@[b as int],
                            )
                    },
                },
            decreases entries@.len() - i,
        {
            let eligible = match file_name(entries[i].path.as_str()) {
                Some(n) => has_recording_extension(n.as_str()),
                None => false,
            };
            if eligible {
                match best {
                    None => {
                        proof {
                            lemma_precedes_order(entries@[i as int], entries@[i as int], entries@[i as int]);
                        }
                        best = Some(i);
                    },
                    Some(b) => {
                        let later = entries[i].modified > entries[b].modified;
                        if later || (entries[i].modified == entries[b].modified && lex_less(
                            entries[i].path.as_str(),
                            entries[b].path.as_str(),
                        )) {
                            proof {
                                let ei = entries@[i as int];
                                let eb = entries@[b as int];
                                assert forall|j: int|
                                    0 <= j < i + 1 && #[trigger] is_eligible(
                                        entries@[j],
                                    ) implies !precedes(entries@[j], ei) by {
                                    lemma_precedes_order(entries@[j], ei, eb);
                                    lemma_precedes_order(ei, eb, ei);
                                }
                            }
                            best = Some(i);
                        }
                    },
                }
            }
            i += 1;
        }
        best
    }

    /// Decides the next claim on a fresh listing of the input directory: the
    /// move of the latest recording into staging, or `None` where the listing
    /// holds no recording.
    pub fn next(&self, entries: &Vec<Entry>) -> (r: Option<Move>)
        ensures
            match r {
                Some(m) => is_claim_of(entries@, m),
                None => forall|j: int| 0 <= j < entries@.len() ==> !is_eligible(#[trigger] entries@[j]),
            },
    {
        match self.find_latest_new_recording(entries) {
            None => None,
            Some(i) => match self.move_file_to_processing_queue(entries[i].path.as_str()) {
                Ok(m) => Some(m),
                // an eligible entry always has a file name
                Err(_) => None,
            },
        }
    }

    /// The move of the file at `path` into staging.
    pub fn move_file_to_processing_queue(&self, path: &str) -> (r: Result<Move, QueueError>)
        ensures
            match r {
                Ok(m) => file_name_of(path@) == Some(m.name@) && m.from == Place::Input && m.to
                    == Place::Staging,
                Err(e) => file_name_of(path@) is None && e == QueueError::NoFileName,
            },
    {
        Self::move_between(path, Place::Input, Place::Staging)
    }

    /// The move of a claimed recording from staging into the output directory.
    pub fn move_file_to_out_dir(&self, rec: &Recording) -> (r: Result<Move, QueueError>)
        ensures
            match r {
                Ok(m) => file_name_of(rec.0@) == Some(m.name@) && m.from == Place::Staging && m.to
                    == Place::Output,
                Err(e) => file_name_of(rec.0@) is None && e == QueueError::NoFileName,
            },
    {
        Self::move_between(rec.0.as_str(), Place::Staging, Place::Output)
    }

    /// The moves that return every listed staged file to the input directory,
    /// or `NoFileName` where a listed path has no file name.
    pub fn empty_processing_queue(&self, staged: &Vec<String>) -> (r: Result<Vec<Move>, QueueError>)
        ensures
            r is Ok <==> forall|i: int|
                0 <= i < staged@.len() ==> file_name_of(#[trigger] staged@[i]@) is Some,
            match r {
                Ok(ms) => is_reconcile_plan(staged@.map_values(|s: String| s@), ms@),
                Err(e) => e == QueueError::NoFileName,
            },
    {
        let mut ms: Vec<Move> = Vec::new();
        let mut i: usize = 0;
        while i < staged.len()
            invariant
                i <= staged@.len(),
                is_reconcile_plan(staged@.map_values(|s: String| s@).take(i as int), ms@),
                forall|j: int| 0 <= j < i ==> file_name_of(#[trigger] staged@[j]@) is Some,
            decreases staged@.len() - i,
        {
            match Self::move_between(staged[i].as_str(), Place::Staging, Place::Input) {
                Ok(m) => {
                    ms.push(m);
                },
                Err(e) => {
                    return Err(e);
                },
            }
            i += 1;
            assert(staged@.map_values(|s: String| s@).take(i as int)
                =~= staged@.map_values(|s: String| s@).take(i - 1).push(staged@[i - 1]@));
        }
        assert(staged@.map_values(|s: String| s@).take(i as int) =~= staged@.map_values(
            |s: String| s@,
        ));
        Ok(ms)
    }
}

/// No two eligible entries of the listing share a modification time.
pub open spec fn distinct_times(s: Seq<Entry>) -> bool {
    forall|a: int, b: int|
        0 <= a < s.len() && 0 <= b < s.len() && a != b && #[trigger] is_eligible(s[a])
            && #[trigger] is_eligible(s[b]) ==> s[a].modified != s[b].modified
}

/// Moves from staging into the input directory take their names out of
/// staging and add them to the input directory.
proof fn lemma_returns_to_input(d: Dirs, ms: Seq<Move>)
    requires
        forall|i: int|
            0 <= i < ms.len() ==> (#[trigger] ms[i]).from == Place::Staging && ms[i].to
                == Place::Input,
    ensures
        forall|n: Seq<char>| #[trigger]
            apply_moves(d, ms).staging.contains(n) <==> d.staging.contains(n) && !moved_name(ms, n),
        forall|n: Seq<char>| #[trigger]
            apply_moves(d, ms).input.contains(n) <==> d.input.contains(n) || moved_name(ms, n),
    decreases ms.len(),
{
    if ms.len() > 0 {
        let p = ms.drop_last();
        let last = ms[ms.len() - 1];
        assert(last.from == Place::Staging && last.to == Place::Input);
        assert forall|i: int| 0 <= i < p.len() implies (#[trigger] p[i]).from == Place::Staging
            && p[i].to == Place::Input by {
            assert(p[i] == ms[i]);
        }
        lemma_returns_to_input(d, p);
        assert forall|n: Seq<char>| moved_name(ms, n) <==> moved_name(p, n) || ms.last().name@ == n by {
            if moved_name(ms, n) {
                let i = choose|i: int| 0 <= i < ms.len() && (#[trigger] ms[i]).name@ == n;
                if i < p.len() {
                    assert(p[i] == ms[i]);
                }
            }
            if moved_name(p, n) {
                let i = choose|i: int| 0 <= i < p.len() && (#[trigger] p[i]).name@ == n;
                assert(ms[i] == p[i]);
            }
            if ms.last().name@ == n {
                assert(ms[ms.len() - 1].name@ == n);
            }
        }
        let prev = apply_moves(d, p);
        assert(apply_moves(d, ms) == apply_move(prev, last));
        assert(apply_move(prev, last).staging == prev.staging.remove(last.name@));
        assert(apply_move(prev, last).input == prev.input.insert(last.name@));
    }
}

/// Reconciliation empties staging: where the staging listing names every
/// file in staging, the planned moves leave staging empty and bring each of
/// those files into the input directory.
pub proof fn lemma_reconciliation_empties_staging(
    d: Dirs,
    staged: Seq<Seq<char>>,
    ms: Seq<Move>,
)
    requires
        is_reconcile_plan(staged, ms),
        forall|n: Seq<char>| #[trigger] d.staging.contains(n) ==> lists(staged, n),
    ensures
        apply_moves(d, ms).staging == Set::<Seq<char>>::empty(),
        forall|n: Seq<char>| #[trigger]
            d.staging.contains(n) ==> apply_moves(d, ms).input.contains(n),
{
    assert forall|i: int| 0 <= i < ms.len() implies (#[trigger] ms[i]).from == Place::Staging
        && ms[i].to == Place::Input by {
        assert(file_name_of(staged[i]) == Some(ms[i].name@));
    }
    lemma_returns_to_input(d, ms);
    assert forall|n: Seq<char>| lists(staged, n) implies moved_name(ms, n) by {
        let i = choose|i: int| 0 <= i < staged.len() && file_name_of(#[trigger] staged[i]) == Some(n);
        assert(ms[i].name@ == n);
    }
    assert(apply_moves(d, ms).staging =~= Set::<Seq<char>>::empty());
}

/// Reconciliation is idempotent: once staging is empty, its listing is
/// empty and a second reconciliation leaves every directory as it was.
pub proof fn lemma_reconciliation_idempotent(d: Dirs, staged: Seq<Seq<char>>, ms: Seq<Move>)
    requires
        d.staging == Set::<Seq<char>>::empty(),
        forall|i: int|
            0 <= i < staged.len() ==> match file_name_of(#[trigger] staged[i]) {
                Some(n) => d.staging.contains(n),
                None => false,
            },
        is_reconcile_plan(staged, ms),
    ensures
        apply_moves(d, ms) == d,
{
    if staged.len() > 0 {
        assert(file_name_of(staged[0]) is Some);
    }
    assert(ms.len() == 0);
}

/// A claim is exclusive: the claimed file leaves the input directory and is
/// in staging.
pub proof fn lemma_claim_is_exclusive(d: Dirs, s: Seq<Entry>, m: Move)
    requires
        is_claim_of(s, m),
    ensures
        !apply_move(d, m).input.contains(m.name@),
        apply_move(d, m).staging.contains(m.name@),
{
}

/// Claims come latest first: the entry claimed from what a claim left of the
/// listing was modified no later than the entry claimed before it, and
/// strictly earlier where eligible entries have distinct modification times.
pub proof fn lemma_claims_latest_first(s: Seq<Entry>, i: int, j: int)
    requires
        is_latest(s, i),
        is_latest(s.remove(i), j),
    ensures
        s.remove(i)[j].modified <= s[i].modified,
        distinct_times(s) ==> s.remove(i)[j].modified < s[i].modified,
{
    let k = if j < i {
        j
    } else {
        j + 1
    };
    assert(s.remove(i)[j] == s[k]);
    assert(is_eligible(s[k]));
    assert(k != i);
}

/// Teardown recovers a claim: after a claim and the reconciliation of a
/// staging listing that names the claimed file, that file is back in the
/// input directory and no longer in staging.
pub proof fn lemma_teardown_returns_claim(
    d: Dirs,
    s: Seq<Entry>,
    m: Move,
    staged: Seq<Seq<char>>,
    ms: Seq<Move>,
)
    requires
        is_claim_of(s, m),
        is_reconcile_plan(staged, ms),
        lists(staged, m.name@),
    ensures
        apply_moves(apply_move(d, m), ms).input.contains(m.name@),
        !apply_moves(apply_move(d, m), ms).staging.contains(m.name@),
{
    assert forall|k: int| 0 <= k < ms.len() implies (#[trigger] ms[k]).from == Place::Staging
        && ms[k].to == Place::Input by {
        assert(file_name_of(staged[k]) == Some(ms[k].name@));
    }
    lemma_returns_to_input(apply_move(d, m), ms);
    let i = choose|i: int| 0 <= i < staged.len() && file_name_of(#[trigger] staged[i]) == Some(m.name@);
    assert(ms[i].name@ == m.name@);
}

} // verus!
