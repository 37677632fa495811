//! Plans of sysfs reads and writes, and the runner that walks them.
//!
//! An update of the hardware settings is a sequence of steps: writes of
//! lines to sysfs files, and checks that a file lists a word before the
//! word is written elsewhere. The caller performs each requested read or
//! write and hands the outcome back; the first step that fails ends the
//! update with its error.
use crate::text::lists_word;
use vstd::prelude::*;

verus! {

/// `std::io::Error`, declared so that updates can carry the errors of reads
/// and writes back to their caller. Nothing is assumed of what it holds.
#[verifier::external_type_specification]
#[verifier::external_body]
pub struct ExIoError(std::io::Error);

/// One step of a plan.
pub enum Step {
    /// Open `path` for writing and write each chunk in turn.
    Write { path: Seq<char>, chunks: Seq<Seq<char>> },
    /// Read `path` and go on only if it lists `word`.
    Check { path: Seq<char>, word: Seq<char> },
}

/// What the caller is asked to do on the file system.
pub enum Request {
    Write { path: Seq<char>, chunks: Seq<Seq<char>> },
    Read { path: Seq<char> },
}

/// What comes next in an update: a request, or the end with its result.
pub enum Next<E> {
    Perform(Request),
    Finish(Result<(), E>),
}

/// What the caller reports back after a request.
pub enum Outcome {
    /// The file was opened and every chunk written, or the error that stopped it.
    Written(Result<(), std::io::Error>),
    /// The file's whole content, or the error that stopped the read.
    Read(Result<Vec<u8>, std::io::Error>),
}

/// Why a step failed.
pub enum StepFailure {
    Io(std::io::Error),
    /// A checked file does not list the word.
    NotListed,
}

/// The action that an update hands to its caller.
pub enum Action<E> {
    /// Open `path` for writing and write the chunks, in order, to it.
    Write { path: String, chunks: Vec<String> },
    /// Read the whole of `path`.
    Read { path: String },
    /// The update is over.
    Done(Result<(), E>),
}

impl<E> Action<E> {
    /// Whether the action ends the update.
    pub fn is_done(&self) -> (r: bool)
        ensures
            r == (self@ is Finish),
    {
        match self {
            Action::Done(_) => true,
            _ => false,
        }
    }
}

/// A step of a plan, as the runner holds it.
pub enum ExecStep {
    Write { path: String, chunks: Vec<String> },
    Check { path: String, word: String },
}

pub open spec fn chunk_views(v: Seq<String>) -> Seq<Seq<char>> {
    v.map_values(|c: String| c@)
}

impl<E> View for Action<E> {
    type V = Next<E>;

    open spec fn view(&self) -> Next<E> {
        match self {
            Action::Write { path, chunks } => Next::Perform(
                Request::Write { path: path@, chunks: chunk_views(chunks@) },
            ),
            Action::Read { path } => Next::Perform(Request::Read { path: path@ }),
            Action::Done(r) => Next::Finish(*r),
        }
    }
}

impl View for ExecStep {
    type V = Step;

    open spec fn view(&self) -> Step {
        match self {
            ExecStep::Write { path, chunks } => Step::Write {
                path: path@,
                chunks: chunk_views(chunks@),
            },
            ExecStep::Check { path, word } => Step::Check { path: path@, word: word@ },
        }
    }
}

pub open spec fn step_views(v: Seq<ExecStep>) -> Seq<Step> {
    v.map_values(|s: ExecStep| s@)
}

/// The request that a step makes.
pub open spec fn request_of(s: Step) -> Request {
    match s {
        Step::Write { path, chunks } => Request::Write { path, chunks },
        Step::Check { path, word } => Request::Read { path },
    }
}

/// `o` answers request `r`.
pub open spec fn fits(r: Request, o: Outcome) -> bool {
    match r {
        Request::Write { .. } => o is Written,
        Request::Read { .. } => o is Read,
    }
}

/// How step `s` fails on outcome `o`, if it does.
pub open spec fn step_failure(s: Step, o: Outcome) -> Option<StepFailure> {
    match s {
        Step::Write { .. } => match o {
            Outcome::Written(Err(e)) => Some(StepFailure::Io(e)),
            _ => None,
        },
        Step::Check { word, .. } => match o {
            Outcome::Read(Err(e)) => Some(StepFailure::Io(e)),
            Outcome::Read(Ok(bytes)) => if lists_word(bytes@, word) {
                None
            } else {
                Some(StepFailure::NotListed)
            },
            Outcome::Written(_) => Some(StepFailure::NotListed),
        },
    }
}

/// Where a run of a plan stands.
pub enum Progress {
    /// Every step so far passed; the next one is at this position.
    At(nat),
    /// A step failed, and so did the run.
    Failed(StepFailure),
}

/// The run of `steps` on the outcomes `outs`, the k-th outcome answering the
/// k-th step.
pub open spec fn run(steps: Seq<Step>, outs: Seq<Outcome>) -> Progress
    decreases outs.len(),
{
    if outs.len() == 0 {
        Progress::At(0)
    } else {
        match run(steps, outs.drop_last()) {
            Progress::Failed(f) => Progress::Failed(f),
            Progress::At(i) => match step_failure(steps[i as int], outs.last()) {
                Some(f) => Progress::Failed(f),
                None => Progress::At(i + 1),
            },
        }
    }
}

/// What comes after the outcomes `outs` of a run of `steps`.
pub open spec fn next_of(steps: Seq<Step>, outs: Seq<Outcome>) -> Next<StepFailure> {
    match run(steps, outs) {
        Progress::Failed(f) => Next::Finish(Err(f)),
        Progress::At(i) => if i < steps.len() {
            Next::Perform(request_of(steps[i as int]))
        } else {
            Next::Finish(Ok(()))
        },
    }
}

/// While a run goes on, it stands after its last outcome, and every step so
/// far passed.
pub proof fn lemma_run_at(steps: Seq<Step>, outs: Seq<Outcome>)
    ensures
        run(steps, outs) is At ==> {
            &&& run(steps, outs) == Progress::At(outs.len())
            &&& forall|k: int|
                0 <= k < outs.len() ==> step_failure(steps[k], #[trigger] outs[k]) is None
        },
    decreases outs.len(),
{
    if outs.len() > 0 {
        lemma_run_at(steps, outs.drop_last());
        if run(steps, outs) is At {
            assert forall|k: int|
                0 <= k < outs.len() implies step_failure(steps[k], #[trigger] outs[k]) is None by {
                if k < outs.len() - 1 {
                    assert(outs.drop_last()[k] == outs[k]);
                }
            }
        }
    }
}

/// A failed run stays failed, with the same failure, whatever comes after.
pub proof fn lemma_failure_is_final(steps: Seq<Step>, outs: Seq<Outcome>, more: Seq<Outcome>)
    requires
        run(steps, outs) is Failed,
    ensures
        run(steps, outs + more) == run(steps, outs),
    decreases more.len(),
{
    if more.len() > 0 {
        lemma_failure_is_final(steps, outs, more.drop_last());
        assert((outs + more).drop_last() =~= outs + more.drop_last());
    } else {
        assert(outs + more =~= outs);
    }
}

/// `st` when `b` holds, nothing otherwise.
pub open spec fn step_if(b: bool, st: Step) -> Seq<Step> {
    if b {
        seq![st]
    } else {
        Seq::empty()
    }
}

/// A run's progress, counted from `n` steps further back.
pub open spec fn shift(p: Progress, n: nat) -> Progress {
    match p {
        Progress::At(i) => Progress::At(i + n),
        Progress::Failed(f) => Progress::Failed(f),
    }
}

/// A run of `steps` that has passed its first `d` steps and then walks
/// `part`, which stands in `steps` from position `d` on, goes as a run of
/// `part` alone.
pub proof fn lemma_run_within(
    steps: Seq<Step>,
    d: nat,
    part: Seq<Step>,
    h1: Seq<Outcome>,
    h2: Seq<Outcome>,
)
    requires
        h1.len() == d,
        run(steps, h1) == Progress::At(d),
        d + part.len() <= steps.len(),
        forall|k: int| 0 <= k < part.len() ==> steps[d + k] == #[trigger] part[k],
        h2.len() <= part.len(),
    ensures
        run(steps, h1 + h2) == shift(run(part, h2), d),
        next_of(part, h2) matches Next::Perform(r) ==> next_of(steps, h1 + h2) == Next::<
            StepFailure,
        >::Perform(r),
        next_of(part, h2) matches Next::Finish(Err(f)) ==> next_of(steps, h1 + h2)
            == Next::Finish(Err(f)),
        next_of(part, h2) matches Next::Finish(Ok(())) ==> run(steps, h1 + h2) == Progress::At(
            d + part.len(),
        ),
    decreases h2.len(),
{
    if h2.len() == 0 {
        assert(h1 + h2 =~= h1);
    } else {
        lemma_run_within(steps, d, part, h1, h2.drop_last());
        assert((h1 + h2).drop_last() =~= h1 + h2.drop_last());
        lemma_run_at(part, h2.drop_last());
        assert((h1 + h2).last() == h2.last());
    }
    lemma_run_at(part, h2);
}

/// A check passes exactly when its file was read and lists the word.
pub proof fn lemma_check_passes(path: Seq<char>, word: Seq<char>, o: Outcome)
    ensures
        step_failure(Step::Check { path, word }, o) is None <==> (o matches Outcome::Read(Ok(
            bytes,
        )) && lists_word(bytes@, word)),
{
}

/// Every step before the position of a run that goes on has passed; in
/// particular every check before it read its file and found the word.
pub proof fn lemma_checks_before_passed(steps: Seq<Step>, outs: Seq<Outcome>, k: int)
    requires
        run(steps, outs) is At,
        0 <= k < outs.len(),
    ensures
        step_failure(steps[k], outs[k]) is None,
        steps[k] matches Step::Check { word, .. } ==> (outs[k] matches Outcome::Read(Ok(bytes))
            && lists_word(bytes@, word)),
{
    lemma_run_at(steps, outs);
    assert(step_failure(steps[k], outs[k]) is None);
}

/// A plan of writes alone fails only on an I/O error.
pub proof fn lemma_writes_fail_only_on_io(steps: Seq<Step>, outs: Seq<Outcome>)
    requires
        forall|k: int| 0 <= k < steps.len() ==> #[trigger] steps[k] is Write,
        outs.len() <= steps.len(),
    ensures
        run(steps, outs) matches Progress::Failed(f) ==> f is Io,
    decreases outs.len(),
{
    if outs.len() > 0 {
        lemma_writes_fail_only_on_io(steps, outs.drop_last());
        lemma_run_at(steps, outs.drop_last());
        if run(steps, outs.drop_last()) is At {
            assert(steps[outs.len() - 1] is Write);
        }
    }
}

/// An update that ends well has performed every step of its plan, and each
/// passed: every write went through, every check found its word.
pub proof fn lemma_success_means_all_passed(steps: Seq<Step>, outs: Seq<Outcome>)
    requires
        next_of(steps, outs) == Next::<StepFailure>::Finish(Ok(())),
        outs.len() <= steps.len(),
    ensures
        outs.len() == steps.len(),
        forall|k: int| 0 <= k < steps.len() ==> step_failure(steps[k], #[trigger] outs[k]) is None,
{
    lemma_run_at(steps, outs);
}

/// How many of the steps are writes.
pub open spec fn write_count(steps: Seq<Step>) -> nat
    decreases steps.len(),
{
    if steps.len() == 0 {
        0
    } else {
        write_count(steps.drop_last()) + if steps.last() is Write {
            1nat
        } else {
            0nat
        }
    }
}

/// How many chunks the writes among the steps write.
pub open spec fn line_count(steps: Seq<Step>) -> nat
    decreases steps.len(),
{
    if steps.len() == 0 {
        0
    } else {
        line_count(steps.drop_last()) + match steps.last() {
            Step::Write { chunks, .. } => chunks.len(),
            Step::Check { .. } => 0nat,
        }
    }
}

/// Both counts add up over joined plans.
pub proof fn lemma_counts_concat(a: Seq<Step>, b: Seq<Step>)
    ensures
        write_count(a + b) == write_count(a) + write_count(b),
        line_count(a + b) == line_count(a) + line_count(b),
    decreases b.len(),
{
    if b.len() == 0 {
        assert(a + b =~= a);
    } else {
        lemma_counts_concat(a, b.drop_last());
        assert((a + b).drop_last() =~= a + b.drop_last());
        assert((a + b).last() == b.last());
    }
}

/// The counts of a plan of one step.
pub proof fn lemma_counts_one(st: Step)
    ensures
        write_count(seq![st]) == (if st is Write {
            1nat
        } else {
            0nat
        }),
        line_count(seq![st]) == match st {
            Step::Write { chunks, .. } => chunks.len(),
            Step::Check { .. } => 0nat,
        },
{
    assert(seq![st].drop_last() =~= Seq::<Step>::empty());
    assert(seq![st].last() == st);
    assert(write_count(Seq::<Step>::empty()) == 0);
    assert(line_count(Seq::<Step>::empty()) == 0);
}

/// While a run goes on, the request it makes is that of the step at the
/// run's length.
pub proof fn lemma_next_is_planned(steps: Seq<Step>, outs: Seq<Outcome>)
    requires
        next_of(steps, outs) is Perform,
    ensures
        outs.len() < steps.len(),
        run(steps, outs) == Progress::At(outs.len()),
        next_of(steps, outs) == Next::<StepFailure>::Perform(request_of(steps[outs.len() as int])),
{
    lemma_run_at(steps, outs);
}

/// An I/O error on the outcome of the pending request fails the run with
/// that error.
pub proof fn lemma_io_error_fails(steps: Seq<Step>, outs: Seq<Outcome>, o: Outcome, e: std::io::Error)
    requires
        next_of(steps, outs) matches Next::Perform(req) && fits(req, o),
        o == Outcome::Written(Err(e)) || o == Outcome::Read(Err(e)),
    ensures
        run(steps, outs.push(o)) == Progress::Failed(StepFailure::Io(e)),
        next_of(steps, outs.push(o)) == Next::<StepFailure>::Finish(Err(StepFailure::Io(e))),
{
    lemma_run_at(steps, outs);
    assert(outs.push(o).drop_last() =~= outs);
}

/// `n` outcomes of writes that all went through.
pub open spec fn all_written(n: nat) -> Seq<Outcome> {
    Seq::new(n, |i: int| Outcome::Written(Ok(())))
}

/// A run whose first `n` steps are writes passes them all when every write
/// goes through.
pub proof fn lemma_writes_all_pass(steps: Seq<Step>, n: nat)
    requires
        n <= steps.len(),
        forall|k: int| 0 <= k < n ==> #[trigger] steps[k] is Write,
    ensures
        run(steps, all_written(n)) == Progress::At(n),
    decreases n,
{
    if n > 0 {
        lemma_writes_all_pass(steps, (n - 1) as nat);
        assert(all_written(n).drop_last() =~= all_written((n - 1) as nat));
        assert(steps[n - 1] is Write);
    }
}

/// Clones of the strings.
fn clone_strings(v: &Vec<String>) -> (r: Vec<String>)
    ensures
        chunk_views(r@) == chunk_views(v@),
{
    let mut r: Vec<String> = Vec::new();
    let mut i: usize = 0;
    while i < v.len()
        invariant
            i <= v.len(),
            r@.len() == i,
            forall|k: int| 0 <= k < i ==> (#[trigger] r@[k])@ == v@[k]@,
        decreases v.len() - i,
    {
        r.push(v[i].clone());
        i += 1;
    }
    assert(chunk_views(r@) =~= chunk_views(v@));
    r
}

/// Walks a plan of steps in order, one outcome at a time.
pub struct StepRunner {
    steps: Vec<ExecStep>,
    at: usize,
    outcomes: Ghost<Seq<Outcome>>,
}

impl StepRunner {
    /// The steps of the plan.
    pub closed spec fn plan(&self) -> Seq<Step> {
        step_views(self.steps@)
    }

    /// The outcomes handed in so far.
    pub closed spec fn history(&self) -> Seq<Outcome> {
        self.outcomes@
    }

    pub closed spec fn wf(&self) -> bool {
        &&& self.at == self.outcomes@.len()
        &&& self.at <= self.steps@.len()
        &&& run(self.plan(), self.outcomes@) is At ==> run(self.plan(), self.outcomes@)
            == Progress::At(self.at as nat)
    }

    /// What comes next in the run.
    pub open spec fn next(&self) -> Next<StepFailure> {
        next_of(self.plan(), self.history())
    }

    /// A runner never holds more outcomes than its plan has steps.
    pub proof fn lemma_wf(&self)
        requires
            self.wf(),
        ensures
            self.history().len() <= self.plan().len(),
    {
    }

    /// A runner at the start of `steps`.
    pub fn new(steps: Vec<ExecStep>) -> (r: Self)
        ensures
            r.wf(),
            r.plan() == step_views(steps@),
            r.history() == Seq::<Outcome>::empty(),
    {
        StepRunner { steps, at: 0, outcomes: Ghost(Seq::empty()) }
    }

    /// The request of the step at position `self.at`, or the end of a run
    /// in which every step passed.
    fn pending(&self) -> (a: Action<StepFailure>)
        requires
            self.wf(),
            run(self.plan(), self.history()) is At,
        ensures
            a@ == self.next(),
    {
        assert(self.plan().len() == self.steps@.len());
        if self.at == self.steps.len() {
            return Action::Done(Ok(()));
        }
        match &self.steps[self.at] {
            ExecStep::Write { path, chunks } => Action::Write {
                path: path.clone(),
                chunks: clone_strings(chunks),
            },
            ExecStep::Check { path, word } => Action::Read { path: path.clone() },
        }
    }

    /// The first action of a fresh run.
    pub fn first(&self) -> (a: Action<StepFailure>)
        requires
            self.wf(),
            self.history().len() == 0,
        ensures
            a@ == self.next(),
    {
        self.pending()
    }

    /// Takes the outcome of the pending request and returns what comes next.
    pub fn advance(&mut self, out: Outcome) -> (a: Action<StepFailure>)
        requires
            old(self).wf(),
            old(self).next() matches Next::Perform(req) && fits(req, out),
        ensures
            final(self).wf(),
            final(self).plan() == old(self).plan(),
            final(self).history() == old(self).history().push(out),
            a@ == final(self).next(),
    {
        let ghost old_history = self.outcomes@;
        let ghost o = out;
        let ghost step = self.plan()[self.at as int];
        assert(self.plan().len() == self.steps@.len());
        let i = self.at;
        let n = self.steps.len();
        assert(i < n);
        self.at = i + 1;
        proof {
            self.outcomes@ = old_history.push(o);
            assert(self.outcomes@.drop_last() =~= old_history);
        }
        let failure = match &self.steps[i] {
            ExecStep::Write { .. } => match out {
                Outcome::Written(Err(e)) => Some(StepFailure::Io(e)),
                _ => None,
            },
            ExecStep::Check { word, .. } => match out {
                Outcome::Read(Err(e)) => Some(StepFailure::Io(e)),
                Outcome::Read(Ok(bytes)) => {
                    if crate::text::is_listed(bytes.as_slice(), word.as_str()) {
                        None
                    } else {
                        Some(StepFailure::NotListed)
                    }
                },
                Outcome::Written(_) => Some(StepFailure::NotListed),
            },
        };
        assert(failure == step_failure(step, o));
        match failure {
            Some(f) => Action::Done(Err(f)),
            None => self.pending(),
        }
    }
}

} // verus!
