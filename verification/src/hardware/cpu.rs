//! Processor frequency policies.
use crate::hardware::platform::line_of;
use crate::sysfs::{
    chunk_views, fits, lemma_checks_before_passed, lemma_run_at, lemma_run_within, next_of, run, step_if, step_views,
    lemma_counts_concat, lemma_counts_one, lemma_io_error_fails, lemma_next_is_planned, request_of,
    write_count, all_written, lemma_writes_all_pass, Action, ExecStep, Next, Outcome, Progress, Request, Step, StepFailure, StepRunner,
};
use crate::text::{
    decimal, decimal_string, is_digit, lemma_decimal_spells, lemma_number_then_slash,
    lemma_parse_decimal, lists_word, parse_or_zero, strip_newlines, text_chars_or, usize_or_zero,
    without_newlines,
};
use vstd::prelude::*;
use vstd::string::to_string_from_display_ensures;
use vstd::utf8::decode_utf8;
use vstd::utf8::valid_utf8;

verus! {

/// The file that switches dynamic energy-performance preference.
pub const DYNAMIC_EPP: &'static str = "/sys/devices/system/cpu/amd_pstate/dynamic_epp";

/// The file that switches turbo boost.
pub const TURBO_BOOST: &'static str = "/sys/devices/system/cpu/cpufreq/boost";

/// The file that gives the range of present processors.
pub const CPU_PRESENT: &'static str = "/sys/devices/system/cpu/present";

/// The start of a processor's policy directory.
pub const POLICY_PREFIX: &'static str = "/sys/devices/system/cpu/cpufreq/policy";

pub const AVAILABLE_PREFERENCES: &'static str = "/energy_performance_available_preferences";

pub const PREFERENCE: &'static str = "/energy_performance_preference";

pub const AVAILABLE_GOVERNORS: &'static str = "/scaling_available_governors";

pub const GOVERNOR: &'static str = "/scaling_governor";

pub const MIN_FREQ: &'static str = "/scaling_min_freq";

pub const MAX_FREQ: &'static str = "/scaling_max_freq";

/// What a `present` file that is not UTF-8 counts as.
pub const PRESENT_FALLBACK: &'static str = "0-0";

/// The processor part of a performance mode.
#[derive(Debug)]
pub struct CpuSettings {
    pub turbo_boost: bool,
    pub energy_performance_preference: String,
    pub scaling_governor: String,
    pub min_freq: u32,
    pub max_freq: u32,
    pub dynamic_epp: bool,
}

/// Why an update of the processor settings failed.
#[derive(Debug)]
pub enum UpdateCpuSettingsError {
    Io(std::io::Error),
    /// The `present` file does not give a range.
    InvalidThreadsCount,
    /// A processor does not offer the preference or the governor.
    InvalidCpuPreference,
}

impl From<std::io::Error> for UpdateCpuSettingsError {
    fn from(err: std::io::Error) -> (r: Self) {
        UpdateCpuSettingsError::Io(err)
    }
}

impl vstd::std_specs::convert::FromSpecImpl<std::io::Error> for UpdateCpuSettingsError {
    open spec fn obeys_from_spec() -> bool {
        true
    }

    open spec fn from_spec(err: std::io::Error) -> Self {
        UpdateCpuSettingsError::Io(err)
    }
}

impl UpdateCpuSettingsError {
    /// The error's text, as its display shows it.
    pub fn message(&self) -> (r: String)
        ensures
            match self {
                UpdateCpuSettingsError::Io(e) => exists|t: String|
                    to_string_from_display_ensures::<std::io::Error>(e, t) && r@ == "IO error: "@
                        + t@,
                UpdateCpuSettingsError::InvalidThreadsCount => r@
                    == "Invalid threads count format"@,
                UpdateCpuSettingsError::InvalidCpuPreference => r@
                    == "Invalid energy performance preference or scaling governor"@,
            },
    {
        match self {
            UpdateCpuSettingsError::Io(e) => {
                let t = e.to_string();
                let mut r = String::from_str("IO error: ");
                r.append(t.as_str());
                r
            },
            UpdateCpuSettingsError::InvalidThreadsCount => String::from_str(
                "Invalid threads count format",
            ),
            UpdateCpuSettingsError::InvalidCpuPreference => String::from_str(
                "Invalid energy performance preference or scaling governor",
            ),
        }
    }

    /// The I/O error underneath, if there is one.
    pub fn source(&self) -> (r: Option<&std::io::Error>)
        ensures
            match self {
                UpdateCpuSettingsError::Io(e) => r == Some(e),
                _ => r is None,
            },
    {
        match self {
            UpdateCpuSettingsError::Io(e) => Some(e),
            _ => None,
        }
    }
}

// ---------------------------------------------------------------------------
// The range of present processors
// ---------------------------------------------------------------------------

/// The text of a `present` file, line feeds taken out.
pub open spec fn present_text(bytes: Seq<u8>) -> Seq<char> {
    strip_newlines(
        if valid_utf8(bytes) {
            decode_utf8(bytes)
        } else {
            PRESENT_FALLBACK@
        },
    )
}

pub open spec fn dash_free(t: Seq<char>) -> bool {
    forall|k: int| 0 <= k < t.len() ==> #[trigger] t[k] != '-'
}

/// `t` holds a dash at `i` and no other.
pub open spec fn single_dash_at(t: Seq<char>, i: int) -> bool {
    &&& 0 <= i < t.len()
    &&& t[i] == '-'
    &&& dash_free(t.subrange(0, i))
    &&& dash_free(t.subrange(i + 1, t.len() as int))
}

/// The first and last processor that a `present` file names: one number, or
/// two around a single dash; a part that is not a number counts as 0. No
/// range when the text holds more than one dash.
pub open spec fn core_range(bytes: Seq<u8>) -> Option<(nat, nat)> {
    let t = present_text(bytes);
    if dash_free(t) {
        Some((usize_or_zero(t), usize_or_zero(t)))
    } else if exists|i: int| single_dash_at(t, i) {
        let i = choose|i: int| single_dash_at(t, i);
        Some((usize_or_zero(t.subrange(0, i)), usize_or_zero(t.subrange(i + 1, t.len() as int))))
    } else {
        None
    }
}

/// The range of processors that a `present` file names.
pub fn parse_cpu_range(content: &[u8]) -> (r: Result<(usize, usize), UpdateCpuSettingsError>)
    ensures
        match r {
            Ok((a, b)) => core_range(content@) == Some((a as nat, b as nat)),
            Err(e) => core_range(content@) is None && e is InvalidThreadsCount,
        },
{
    let raw = text_chars_or(content, PRESENT_FALLBACK);
    let t = without_newlines(&raw);
    let ghost tv = t@;
    assert(tv == present_text(content@));
    let n = t.len();
    let mut i: usize = 0;
    while i < n && t[i] != '-'
        invariant
            n == t@.len(),
            i <= n,
            forall|k: int| 0 <= k < i ==> t@[k] != '-',
        decreases n - i,
    {
        i += 1;
    }
    if i == n {
        assert(dash_free(tv));
        assert(tv.subrange(0, n as int) =~= tv);
        let v = parse_or_zero(&t, 0, n);
        return Ok((v, v));
    }
    let mut j: usize = i + 1;
    while j < n && t[j] != '-'
        invariant
            n == t@.len(),
            i < j <= n,
            forall|k: int| i < k < j ==> t@[k] != '-',
        decreases n - j,
    {
        j += 1;
    }
    if j < n {
        assert forall|m: int| !single_dash_at(tv, m) by {
            if single_dash_at(tv, m) {
                if m == i {
                    assert(tv.subrange(i + 1, n as int)[j - i - 1] == '-');
                } else if m < i {
                } else {
                    assert(tv.subrange(0, m)[i as int] == '-');
                }
            }
        }
        assert(tv[i as int] == '-');
        assert(!dash_free(tv));
        return Err(UpdateCpuSettingsError::InvalidThreadsCount);
    }
    assert(single_dash_at(tv, i as int)) by {
        assert(dash_free(tv.subrange(0, i as int)));
        assert forall|k: int| 0 <= k < tv.subrange(i + 1, n as int).len() implies #[trigger] tv.subrange(
            i + 1,
            n as int,
        )[k] != '-' by {
            assert(tv.subrange(i + 1, n as int)[k] == tv[i + 1 + k]);
        }
    }
    let ghost m = choose|m: int| single_dash_at(tv, m);
    assert(m == i) by {
        if m < i {
        } else if m > i {
            assert(tv.subrange(0, m)[i as int] == '-');
        }
    }
    assert(tv[i as int] == '-');
    let a = parse_or_zero(&t, 0, i);
    let b = parse_or_zero(&t, i + 1, n);
    Ok((a, b))
}

// ---------------------------------------------------------------------------
// The plan
// ---------------------------------------------------------------------------

/// A file under a processor's policy directory.
pub open spec fn policy_path(core: nat, leaf: Seq<char>) -> Seq<char> {
    POLICY_PREFIX@ + decimal(core) + leaf
}

/// The write of one line to a file.
pub open spec fn line_step(path: Seq<char>, data: Seq<char>) -> Step {
    Step::Write { path, chunks: seq![data.push('\n')] }
}

/// The first two steps: dynamic preference, then turbo boost.
pub open spec fn cpu_head(s: CpuSettings) -> Seq<Step> {
    seq![
        line_step(DYNAMIC_EPP@, if s.dynamic_epp { "enabled"@ } else { "disabled"@ }),
        line_step(TURBO_BOOST@, decimal(if s.turbo_boost { 1 } else { 0 })),
    ]
}

/// The steps for one processor: the preference and the governor, each
/// checked against what the processor offers before it is written, then
/// the frequency bounds that are not 0.
pub open spec fn core_steps(s: CpuSettings, core: nat) -> Seq<Step> {
    seq![
        Step::Check {
            path: policy_path(core, AVAILABLE_PREFERENCES@),
            word: s.energy_performance_preference@,
        },
        line_step(policy_path(core, PREFERENCE@), s.energy_performance_preference@),
        Step::Check { path: policy_path(core, AVAILABLE_GOVERNORS@), word: s.scaling_governor@ },
        line_step(policy_path(core, GOVERNOR@), s.scaling_governor@),
    ] + step_if(s.min_freq > 0, line_step(policy_path(core, MIN_FREQ@), decimal(s.min_freq as nat)))
        + step_if(
        s.max_freq > 0,
        line_step(policy_path(core, MAX_FREQ@), decimal(s.max_freq as nat)),
    )
}

/// The steps for the processors `first` to `last`, in order.
pub open spec fn cores_steps(s: CpuSettings, first: nat, last: nat) -> Seq<Step>
    decreases last + 1 - first,
{
    if first > last {
        Seq::empty()
    } else {
        core_steps(s, first) + cores_steps(s, first + 1, last)
    }
}

/// How a step failure reads as a processor error.
pub open spec fn cpu_error(f: StepFailure) -> UpdateCpuSettingsError {
    match f {
        StepFailure::Io(e) => UpdateCpuSettingsError::Io(e),
        StepFailure::NotListed => UpdateCpuSettingsError::InvalidCpuPreference,
    }
}

pub open spec fn cpu_next_of(n: Next<StepFailure>) -> Next<UpdateCpuSettingsError> {
    match n {
        Next::Perform(r) => Next::Perform(r),
        Next::Finish(Ok(())) => Next::Finish(Ok(())),
        Next::Finish(Err(f)) => Next::Finish(Err(cpu_error(f))),
    }
}

/// The range that the read of the `present` file gives, or why it gives
/// none. (An outcome that does not answer the read never comes: `step`
/// requires it.)
pub open spec fn present_range(o: Outcome) -> Result<(nat, nat), UpdateCpuSettingsError> {
    match o {
        Outcome::Read(Ok(bytes)) => match core_range(bytes@) {
            Some(r) => Ok(r),
            None => Err(UpdateCpuSettingsError::InvalidThreadsCount),
        },
        Outcome::Read(Err(e)) => Err(UpdateCpuSettingsError::Io(e)),
        Outcome::Written(_) => Err(UpdateCpuSettingsError::InvalidThreadsCount),
    }
}

/// What comes after the outcomes `h` in an update to `s`: the two head
/// steps, then the read of the `present` file, then the steps of each
/// processor of its range; the first failure ends the update.
pub open spec fn cpu_next(s: CpuSettings, h: Seq<Outcome>) -> Next<UpdateCpuSettingsError> {
    if h.len() <= 2 {
        match next_of(cpu_head(s), h) {
            Next::Finish(Ok(())) => Next::Perform(Request::Read { path: CPU_PRESENT@ }),
            n => cpu_next_of(n),
        }
    } else {
        match run(cpu_head(s), h.take(2)) {
            Progress::Failed(f) => Next::Finish(Err(cpu_error(f))),
            Progress::At(_) => match present_range(h[2]) {
                Err(e) => Next::Finish(Err(e)),
                Ok((first, last)) => cpu_next_of(
                    next_of(cores_steps(s, first, last), h.skip(3)),
                ),
            },
        }
    }
}

fn cpu_action(a: Action<StepFailure>) -> (r: Action<UpdateCpuSettingsError>)
    ensures
        r@ == cpu_next_of(a@),
{
    match a {
        Action::Write { path, chunks } => Action::Write { path, chunks },
        Action::Read { path } => Action::Read { path },
        Action::Done(Ok(())) => Action::Done(Ok(())),
        Action::Done(Err(StepFailure::Io(e))) => Action::Done(Err(UpdateCpuSettingsError::Io(e))),
        Action::Done(Err(StepFailure::NotListed)) => Action::Done(
            Err(UpdateCpuSettingsError::InvalidCpuPreference),
        ),
    }
}

fn line_exec(path: String, data: &str) -> (r: ExecStep)
    ensures
        r@ == line_step(path@, data@),
{
    let mut chunks: Vec<String> = Vec::new();
    chunks.push(line_of(data));
    assert(chunk_views(chunks@) =~= seq![data@.push('\n')]);
    ExecStep::Write { path, chunks }
}

fn policy_file(core: usize, leaf: &str) -> (r: String)
    ensures
        r@ == policy_path(core as nat, leaf@),
{
    let mut p = String::from_str(POLICY_PREFIX);
    let n = decimal_string(core as u64);
    p.append(n.as_str());
    p.append(leaf);
    p
}

fn head_plan(s: &CpuSettings) -> (v: Vec<ExecStep>)
    ensures
        step_views(v@) == cpu_head(*s),
{
    let mut steps: Vec<ExecStep> = Vec::new();
    let epp = if s.dynamic_epp {
        "enabled"
    } else {
        "disabled"
    };
    steps.push(line_exec(String::from_str(DYNAMIC_EPP), epp));
    let boost: u64 = if s.turbo_boost {
        1
    } else {
        0
    };
    let b = decimal_string(boost);
    steps.push(line_exec(String::from_str(TURBO_BOOST), b.as_str()));
    assert(step_views(steps@) =~= cpu_head(*s));
    steps
}

fn core_plan(s: &CpuSettings, core: usize) -> (v: Vec<ExecStep>)
    ensures
        step_views(v@) == core_steps(*s, core as nat),
{
    let ghost c = core as nat;
    let mut steps: Vec<ExecStep> = Vec::new();
    steps.push(
        ExecStep::Check {
            path: policy_file(core, AVAILABLE_PREFERENCES),
            word: s.energy_performance_preference.clone(),
        },
    );
    steps.push(
        line_exec(policy_file(core, PREFERENCE), s.energy_performance_preference.as_str()),
    );
    steps.push(
        ExecStep::Check {
            path: policy_file(core, AVAILABLE_GOVERNORS),
            word: s.scaling_governor.clone(),
        },
    );
    steps.push(line_exec(policy_file(core, GOVERNOR), s.scaling_governor.as_str()));
    let ghost four = step_views(steps@);
    assert(four =~= seq![
        Step::Check {
            path: policy_path(c, AVAILABLE_PREFERENCES@),
            word: s.energy_performance_preference@,
        },
        line_step(policy_path(c, PREFERENCE@), s.energy_performance_preference@),
        Step::Check { path: policy_path(c, AVAILABLE_GOVERNORS@), word: s.scaling_governor@ },
        line_step(policy_path(c, GOVERNOR@), s.scaling_governor@),
    ]);
    if s.min_freq > 0 {
        let f = decimal_string(s.min_freq as u64);
        steps.push(line_exec(policy_file(core, MIN_FREQ), f.as_str()));
    }
    let ghost five = step_views(steps@);
    assert(five =~= four + step_if(
        s.min_freq > 0,
        line_step(policy_path(c, MIN_FREQ@), decimal(s.min_freq as nat)),
    ));
    if s.max_freq > 0 {
        let f = decimal_string(s.max_freq as u64);
        steps.push(line_exec(policy_file(core, MAX_FREQ), f.as_str()));
    }
    assert(step_views(steps@) =~= five + step_if(
        s.max_freq > 0,
        line_step(policy_path(c, MAX_FREQ@), decimal(s.max_freq as nat)),
    ));
    steps
}

// ---------------------------------------------------------------------------
// The update
// ---------------------------------------------------------------------------

/// How a run over the processors stands, told from the run of the current
/// processor's steps.
proof fn lemma_cores(
    s: CpuSettings,
    first: nat,
    last: nat,
    core: nat,
    d: nat,
    h: Seq<Outcome>,
    hb: Seq<Outcome>,
)
    requires
        h.len() >= 3,
        run(cpu_head(s), h.take(2)) is At,
        present_range(h[2]) == Ok::<(nat, nat), UpdateCpuSettingsError>((first, last)),
        d <= h.skip(3).len(),
        h.skip(3).skip(d as int) == hb,
        run(cores_steps(s, first, last), h.skip(3).take(d as int)) == Progress::At(d),
        cores_steps(s, first, last).skip(d as int) == core_steps(s, core) + cores_steps(
            s,
            core + 1,
            last,
        ),
        d + core_steps(s, core).len() <= cores_steps(s, first, last).len(),
        hb.len() <= core_steps(s, core).len(),
    ensures
        next_of(core_steps(s, core), hb) matches Next::Perform(r) ==> cpu_next(s, h)
            == Next::<UpdateCpuSettingsError>::Perform(r),
        next_of(core_steps(s, core), hb) matches Next::Finish(Err(f)) ==> cpu_next(s, h)
            == Next::<UpdateCpuSettingsError>::Finish(Err(cpu_error(f))),
        next_of(core_steps(s, core), hb) matches Next::Finish(Ok(())) ==> run(
            cores_steps(s, first, last),
            h.skip(3),
        ) == Progress::At(d + core_steps(s, core).len()),
{
    let cs = cores_steps(s, first, last);
    let part = core_steps(s, core);
    let hc = h.skip(3);
    let hp = hc.take(d as int);
    assert(hc =~= hp + hb);
    assert forall|k: int| 0 <= k < part.len() implies cs[d + k] == #[trigger] part[k] by {
        assert(cs.skip(d as int)[k] == cs[d + k]);
    }
    lemma_run_within(cs, d, part, hp, hb);
}

#[derive(Clone, Copy)]
enum CpuStage {
    /// Dynamic preference and turbo boost.
    Head,
    /// The read of the `present` file.
    Present,
    /// The steps of processor `core`, of the range that ends at `last`.
    Cores { core: usize, last: usize },
    /// The update has ended.
    Over,
}

/// An update of the processor settings in progress.
pub struct CpuUpdate<'a> {
    settings: &'a CpuSettings,
    stage: CpuStage,
    batch: StepRunner,
    outcomes: Ghost<Seq<Outcome>>,
    first: Ghost<nat>,
    done_before: Ghost<nat>,
}

impl<'a> CpuUpdate<'a> {
    /// The settings being applied.
    pub closed spec fn settings(&self) -> CpuSettings {
        *self.settings
    }

    /// The outcomes handed in so far.
    pub closed spec fn history(&self) -> Seq<Outcome> {
        self.outcomes@
    }

    /// What comes next.
    pub open spec fn next(&self) -> Next<UpdateCpuSettingsError> {
        cpu_next(self.settings(), self.history())
    }

    pub closed spec fn wf(&self) -> bool {
        let s = *self.settings;
        let h = self.outcomes@;
        match self.stage {
            CpuStage::Head => {
                &&& self.batch.wf()
                &&& self.batch.plan() == cpu_head(s)
                &&& self.batch.history() == h
                &&& next_of(cpu_head(s), h) is Perform
            },
            CpuStage::Present => h.len() == 2 && run(cpu_head(s), h) == Progress::At(2),
            CpuStage::Cores { core, last } => {
                let cs = cores_steps(s, self.first@, last as nat);
                let hc = h.skip(3);
                let d = self.done_before@;
                &&& h.len() >= 3
                &&& run(cpu_head(s), h.take(2)) is At
                &&& present_range(h[2]) == Ok::<(nat, nat), UpdateCpuSettingsError>(
                    (self.first@, last as nat),
                )
                &&& core <= last
                &&& self.batch.wf()
                &&& self.batch.plan() == core_steps(s, core as nat)
                &&& d <= hc.len()
                &&& hc.skip(d as int) == self.batch.history()
                &&& run(cs, hc.take(d as int)) == Progress::At(d)
                &&& cs.skip(d as int) == core_steps(s, core as nat) + cores_steps(
                    s,
                    core as nat + 1,
                    last as nat,
                )
                &&& d + core_steps(s, core as nat).len() <= cs.len()
                &&& self.batch.next() is Perform
            },
            CpuStage::Over => cpu_next(s, h) is Finish,
        }
    }

    /// `step` in the steps of processor `core`.
    fn step_cores(&mut self, core: usize, last: usize, out: Outcome) -> (a: Action<
        UpdateCpuSettingsError,
    >)
        requires
            old(self).wf(),
            old(self).stage == (CpuStage::Cores { core, last }),
            old(self).next() matches Next::Perform(req) && fits(req, out),
        ensures
            final(self).wf(),
            final(self).settings() == old(self).settings(),
            final(self).history() == old(self).history().push(out),
            a@ == final(self).next(),
    {
        let ghost s = *self.settings;
        let ghost h0 = self.outcomes@;
        let ghost o = out;
        let ghost h1 = h0.push(o);
        let ghost first = self.first@;
        let ghost d = self.done_before@;
        let ghost hb0 = self.batch.history();
        proof {
            self.batch.lemma_wf();
            lemma_cores(s, first, last as nat, core as nat, d, h0, hb0);
        }
        let a = self.batch.advance(out);
        let ghost hb1 = self.batch.history();
        proof {
            self.outcomes@ = h1;
            self.batch.lemma_wf();
            assert(h1.take(2) =~= h0.take(2));
            assert(h1[2] == h0[2]);
            assert(h1.skip(3) =~= h0.skip(3).push(o));
            assert(h1.skip(3).take(d as int) =~= h0.skip(3).take(d as int));
            assert(h1.skip(3).skip(d as int) =~= hb1);
            lemma_cores(s, first, last as nat, core as nat, d, h1, hb1);
        }
        match a {
            Action::Done(Ok(())) => {
                if core == last {
                    proof {
                        let cs = cores_steps(s, first, last as nat);
                        assert(cores_steps(s, core as nat + 1, last as nat)
                            =~= Seq::<Step>::empty());
                        assert(cs.skip(d as int).len() == core_steps(
                            s,
                            core as nat,
                        ).len());
                    }
                    self.stage = CpuStage::Over;
                    Action::Done(Ok(()))
                } else {
                    let next_core = core + 1;
                    let runner = StepRunner::new(core_plan(self.settings, next_core));
                    let b = runner.first();
                    self.batch = runner;
                    self.stage = CpuStage::Cores { core: next_core, last };
                    let ghost d1 = d + core_steps(s, core as nat).len();
                    self.done_before = Ghost(d1);
                    proof {
                        let cs = cores_steps(s, first, last as nat);
                        let hc = h1.skip(3);
                        lemma_run_at(cs, hc);
                        assert(hc.take(d1 as int) =~= hc);
                        assert(hc.skip(d1 as int) =~= Seq::<Outcome>::empty());
                        assert(cs.skip(d1 as int) =~= cs.skip(d as int).skip(
                            core_steps(s, core as nat).len() as int,
                        ));
                        assert(cs.skip(d as int).skip(
                            core_steps(s, core as nat).len() as int,
                        ) =~= cores_steps(s, core as nat + 1, last as nat));
                        lemma_cores(
                            s,
                            first,
                            last as nat,
                            next_core as nat,
                            d1,
                            h1,
                            Seq::empty(),
                        );
                    }
                    cpu_action(b)
                }
            },
            other => {
                if other.is_done() {
                    self.stage = CpuStage::Over;
                }
                cpu_action(other)
            },
        }
    }

    /// Takes the outcome of the last request and returns what comes next.
    pub fn step(&mut self, out: Outcome) -> (a: Action<UpdateCpuSettingsError>)
        requires
            old(self).wf(),
            old(self).next() matches Next::Perform(req) && fits(req, out),
        ensures
            final(self).wf(),
            final(self).settings() == old(self).settings(),
            final(self).history() == old(self).history().push(out),
            a@ == final(self).next(),
    {
        let ghost s = *self.settings;
        let ghost h0 = self.outcomes@;
        let ghost o = out;
        let ghost h1 = h0.push(o);
        let stage = self.stage;
        match stage {
            CpuStage::Head => {
                proof {
                    lemma_run_at(cpu_head(s), h0);
                }
                let a = self.batch.advance(out);
                proof {
                    self.outcomes@ = h1;
                    lemma_run_at(cpu_head(s), h1);
                }
                match a {
                    Action::Done(Ok(())) => {
                        self.stage = CpuStage::Present;
                        Action::Read { path: String::from_str(CPU_PRESENT) }
                    },
                    other => {
                        if other.is_done() {
                            self.stage = CpuStage::Over;
                        }
                        cpu_action(other)
                    },
                }
            },
            CpuStage::Present => {
                proof {
                    self.outcomes@ = h1;
                    assert(h1.take(2) =~= h0);
                    assert(h1.skip(3) =~= Seq::<Outcome>::empty());
                }
                match out {
                    Outcome::Read(Ok(bytes)) => match parse_cpu_range(bytes.as_slice()) {
                        Ok((first, last)) => {
                            if first > last {
                                self.stage = CpuStage::Over;
                                Action::Done(Ok(()))
                            } else {
                                let runner = StepRunner::new(core_plan(self.settings, first));
                                let b = runner.first();
                                self.batch = runner;
                                self.stage = CpuStage::Cores { core: first, last };
                                self.first = Ghost(first as nat);
                                self.done_before = Ghost(0);
                                proof {
                                    let cs = cores_steps(s, first as nat, last as nat);
                                    assert(cs.skip(0) =~= cs);
                                    assert(h1.skip(3).take(0) =~= Seq::<Outcome>::empty());
                                    assert(h1.skip(3).skip(0) =~= Seq::<Outcome>::empty());
                                    lemma_cores(
                                        s,
                                        first as nat,
                                        last as nat,
                                        first as nat,
                                        0,
                                        h1,
                                        Seq::empty(),
                                    );
                                }
                                cpu_action(b)
                            }
                        },
                        Err(e) => {
                            self.stage = CpuStage::Over;
                            Action::Done(Err(e))
                        },
                    },
                    Outcome::Read(Err(e)) => {
                        self.stage = CpuStage::Over;
                        Action::Done(Err(UpdateCpuSettingsError::Io(e)))
                    },
                    Outcome::Written(_) => {
                        self.stage = CpuStage::Over;
                        Action::Done(Err(UpdateCpuSettingsError::InvalidThreadsCount))
                    },
                }
            },
            CpuStage::Cores { core, last } => self.step_cores(core, last, out),
            CpuStage::Over => {
                proof {
                    assert(false);
                }
                Action::Done(Ok(()))
            },
        }
    }
}

/// Starts an update of the processors to `settings`. Returns the update and
/// its first action.
pub fn update_cpu_settings<'a>(settings: &'a CpuSettings) -> (r: (
    CpuUpdate<'a>,
    Action<UpdateCpuSettingsError>,
))
    ensures
        r.0.wf(),
        r.0.settings() == *settings,
        r.0.history() == Seq::<Outcome>::empty(),
        r.1@ == r.0.next(),
{
    let runner = StepRunner::new(head_plan(settings));
    let a = runner.first();
    let update = CpuUpdate {
        settings,
        stage: CpuStage::Head,
        batch: runner,
        outcomes: Ghost(Seq::empty()),
        first: Ghost(0),
        done_before: Ghost(0),
    };
    (update, cpu_action(a))
}

proof fn lemma_leaves()
    ensures
        PREFERENCE@.len() > 0 && PREFERENCE@[0] == '/',
        GOVERNOR@.len() > 0 && GOVERNOR@[0] == '/',
        MIN_FREQ@.len() > 0 && MIN_FREQ@[0] == '/',
        MAX_FREQ@.len() > 0 && MAX_FREQ@[0] == '/',
        PREFERENCE@ != GOVERNOR@,
        PREFERENCE@ != MIN_FREQ@,
        PREFERENCE@ != MAX_FREQ@,
        GOVERNOR@ != MIN_FREQ@,
        GOVERNOR@ != MAX_FREQ@,
        MIN_FREQ@ != MAX_FREQ@,
{
    reveal_strlit("/energy_performance_preference");
    reveal_strlit("/scaling_governor");
    reveal_strlit("/scaling_min_freq");
    reveal_strlit("/scaling_max_freq");
    assert(GOVERNOR@[9] != MIN_FREQ@[9]);
    assert(GOVERNOR@[9] != MAX_FREQ@[9]);
    assert(MIN_FREQ@[10] != MAX_FREQ@[10]);
}

/// No file of a policy directory is one of the two head files.
proof fn lemma_policy_path_not_head(c: nat, leaf: Seq<char>)
    ensures
        policy_path(c, leaf) != DYNAMIC_EPP@,
        policy_path(c, leaf) != TURBO_BOOST@,
{
    reveal_strlit("/sys/devices/system/cpu/cpufreq/policy");
    reveal_strlit("/sys/devices/system/cpu/amd_pstate/dynamic_epp");
    reveal_strlit("/sys/devices/system/cpu/cpufreq/boost");
    let p = policy_path(c, leaf);
    assert(p[24] == POLICY_PREFIX@[24]);
    assert(p[32] == POLICY_PREFIX@[32]);
    assert(DYNAMIC_EPP@[24] != p[24]);
    assert(TURBO_BOOST@[32] != p[32]);
}

/// Step `i` of the processors' plan is step `j` of some processor `c`; when
/// `j` is not the processor's first step, step `i - 1` is its step `j - 1`.
proof fn lemma_cores_step_at(s: CpuSettings, first: nat, last: nat, i: int) -> (r: (nat, int))
    requires
        0 <= i < cores_steps(s, first, last).len(),
    ensures
        first <= r.0 <= last,
        0 <= r.1 < core_steps(s, r.0).len(),
        r.1 <= i,
        cores_steps(s, first, last)[i] == core_steps(s, r.0)[r.1],
        r.1 >= 1 ==> cores_steps(s, first, last)[i - 1] == core_steps(s, r.0)[r.1 - 1],
        r.1 + 1 < core_steps(s, r.0).len() ==> i + 1 < cores_steps(s, first, last).len()
            && cores_steps(s, first, last)[i + 1] == core_steps(s, r.0)[r.1 + 1],
    decreases last + 1 - first,
{
    let cs = cores_steps(s, first, last);
    let b = core_steps(s, first);
    let rest = cores_steps(s, first + 1, last);
    assert(cs == b + rest);
    if i < b.len() {
        if i + 1 < b.len() {
            assert(cs[i + 1] == b[i + 1]);
        }
        (first, i)
    } else {
        let (c, j) = lemma_cores_step_at(s, first + 1, last, i - b.len());
        assert(cs[i] == rest[i - b.len()]);
        if j >= 1 {
            assert(cs[i - 1] == rest[i - 1 - b.len()]);
        }
        if j + 1 < core_steps(s, c).len() {
            assert(cs[i + 1] == rest[i + 1 - b.len()]);
        }
        (c, j)
    }
}

/// Step `j` of a processor's steps, for `j` past the fourth: a frequency bound.
proof fn lemma_bound_steps(s: CpuSettings, c: nat, j: int)
    requires
        4 <= j < core_steps(s, c).len(),
    ensures
        (s.min_freq > 0 && core_steps(s, c)[j] == line_step(
            policy_path(c, MIN_FREQ@),
            decimal(s.min_freq as nat),
        )) || (s.max_freq > 0 && core_steps(s, c)[j] == line_step(
            policy_path(c, MAX_FREQ@),
            decimal(s.max_freq as nat),
        )),
{
    let four = seq![
        Step::Check {
            path: policy_path(c, AVAILABLE_PREFERENCES@),
            word: s.energy_performance_preference@,
        },
        line_step(policy_path(c, PREFERENCE@), s.energy_performance_preference@),
        Step::Check { path: policy_path(c, AVAILABLE_GOVERNORS@), word: s.scaling_governor@ },
        line_step(policy_path(c, GOVERNOR@), s.scaling_governor@),
    ];
    let a = step_if(
        s.min_freq > 0,
        line_step(policy_path(c, MIN_FREQ@), decimal(s.min_freq as nat)),
    );
    let b = step_if(
        s.max_freq > 0,
        line_step(policy_path(c, MAX_FREQ@), decimal(s.max_freq as nat)),
    );
    assert(core_steps(s, c) == four + a + b);
    if j < 4 + a.len() {
        assert((four + a + b)[j] == a[j - 4]);
    } else {
        assert((four + a + b)[j] == b[j - 4 - a.len()]);
    }
}

/// When the update asks to write a file of processor `c`'s policy directory,
/// it stands inside the steps of processor `c`, at a write of that file.
proof fn lemma_policy_write(s: CpuSettings, h: Seq<Outcome>, c: nat, leaf: Seq<char>) -> (r: (
    nat,
    nat,
    int,
))
    requires
        cpu_next(s, h) matches Next::Perform(Request::Write { path, .. }) && path == policy_path(
            c,
            leaf,
        ),
        leaf.len() > 0 && leaf[0] == '/',
    ensures
        h.len() >= 3,
        run(cpu_head(s), h.take(2)) is At,
        present_range(h[2]) == Ok::<(nat, nat), UpdateCpuSettingsError>((r.0, r.1)),
        0 <= r.2 < core_steps(s, c).len(),
        r.2 <= h.len() - 3 < cores_steps(s, r.0, r.1).len(),
        run(cores_steps(s, r.0, r.1), h.skip(3)) == Progress::At((h.len() - 3) as nat),
        cores_steps(s, r.0, r.1)[h.len() - 3] == core_steps(s, c)[r.2],
        r.2 >= 1 ==> cores_steps(s, r.0, r.1)[h.len() - 4] == core_steps(s, c)[r.2 - 1],
        core_steps(s, c)[r.2] matches Step::Write { path, .. } && path == policy_path(c, leaf),
        cpu_next(s, h) == Next::<UpdateCpuSettingsError>::Perform(
            request_of(core_steps(s, c)[r.2]),
        ),
        r.2 + 1 < core_steps(s, c).len() ==> h.len() - 2 < cores_steps(s, r.0, r.1).len()
            && cores_steps(s, r.0, r.1)[h.len() - 2] == core_steps(s, c)[r.2 + 1],
{
    lemma_policy_path_not_head(c, leaf);
    lemma_run_at(cpu_head(s), h);
    if h.len() <= 2 {
        assert(false);
    }
    let (first, last) = present_range(h[2])->Ok_0;
    let cs = cores_steps(s, first, last);
    let hc = h.skip(3);
    lemma_run_at(cs, hc);
    let i = hc.len() as int;
    let (c1, j) = lemma_cores_step_at(s, first, last, i);
    lemma_leaves();
    let st = core_steps(s, c1)[j];
    let l1 = if j == 1 {
        PREFERENCE@
    } else if j == 3 {
        GOVERNOR@
    } else if j >= 4 && st == line_step(policy_path(c1, MIN_FREQ@), decimal(s.min_freq as nat)) {
        MIN_FREQ@
    } else {
        MAX_FREQ@
    };
    if j >= 4 {
        lemma_bound_steps(s, c1, j);
    }
    assert(st matches Step::Write { path, .. } && path == policy_path(c1, l1));
    lemma_number_then_slash(POLICY_PREFIX@, c1, l1, c, leaf);
    (first, last, j)
}

/// The request before the write of a checked setting, and the check's pass.
proof fn lemma_checked_write(
    s: CpuSettings,
    h: Seq<Outcome>,
    c: nat,
    leaf: Seq<char>,
    listed: Seq<char>,
    word: Seq<char>,
    j: int,
)
    requires
        cpu_next(s, h) matches Next::Perform(Request::Write { path, .. }) && path == policy_path(
            c,
            leaf,
        ),
        leaf.len() > 0 && leaf[0] == '/',
        1 <= j < core_steps(s, c).len(),
        core_steps(s, c)[j - 1] == (Step::Check { path: policy_path(c, listed), word }),
        forall|k: int|
            0 <= k < core_steps(s, c).len() && k != j ==> !(#[trigger] core_steps(s, c)[k] matches Step::Write {
                path,
                ..
            } && path == policy_path(c, leaf)),
    ensures
        h.len() > 0,
        cpu_next(s, h.drop_last()) == Next::<UpdateCpuSettingsError>::Perform(
            Request::Read { path: policy_path(c, listed) },
        ),
        h.last() matches Outcome::Read(Ok(bytes)) && lists_word(bytes@, word),
        cpu_next(s, h) == Next::<UpdateCpuSettingsError>::Perform(
            request_of(core_steps(s, c)[j]),
        ),
{
    let (first, last, jj) = lemma_policy_write(s, h, c, leaf);
    assert(jj == j);
    let cs = cores_steps(s, first, last);
    let hc = h.skip(3);
    let i = hc.len() - 1;
    lemma_checks_before_passed(cs, hc, i);
    assert(h.last() == hc[i]);
    let h1 = h.drop_last();
    assert(h1.take(2) =~= h.take(2));
    assert(h1[2] == h[2]);
    assert(h1.skip(3) =~= hc.drop_last());
    lemma_run_at(cs, hc.drop_last());
}

/// A processor's energy-performance preference is written only when the
/// processor offers it: whenever the update asks to write a processor's
/// preference file, the outcome just before came from reading that same
/// processor's list of offered preferences, and the list holds the
/// preference. What is written there is the preference and a line feed.
pub proof fn lemma_preference_written_only_if_offered(s: CpuSettings, h: Seq<Outcome>, c: nat)
    requires
        cpu_next(s, h) matches Next::Perform(Request::Write { path, .. }) && path == policy_path(
            c,
            PREFERENCE@,
        ),
    ensures
        h.len() > 0,
        cpu_next(s, h.drop_last()) == Next::<UpdateCpuSettingsError>::Perform(
            Request::Read { path: policy_path(c, AVAILABLE_PREFERENCES@) },
        ),
        h.last() matches Outcome::Read(Ok(bytes)) && lists_word(
            bytes@,
            s.energy_performance_preference@,
        ),
        cpu_next(s, h) == Next::<UpdateCpuSettingsError>::Perform(
            Request::Write {
                path: policy_path(c, PREFERENCE@),
                chunks: seq![s.energy_performance_preference@.push('\n')],
            },
        ),
        cpu_next(s, h) == Next::<UpdateCpuSettingsError>::Perform(
            Request::Write {
                path: POLICY_PREFIX@ + decimal(c) + PREFERENCE@,
                chunks: seq![s.energy_performance_preference@.push('\n')],
            },
        ),
        cpu_next(s, h.drop_last()) == Next::<UpdateCpuSettingsError>::Perform(
            Request::Read { path: POLICY_PREFIX@ + decimal(c) + AVAILABLE_PREFERENCES@ },
        ),
{
    lemma_leaves();
    assert forall|k: int|
        0 <= k < core_steps(s, c).len() && k != 1 implies !(#[trigger] core_steps(
        s,
        c,
    )[k] matches Step::Write { path, .. } && path == policy_path(c, PREFERENCE@)) by {
        if k >= 4 {
            lemma_bound_steps(s, c, k);
            if core_steps(s, c)[k] == line_step(
                policy_path(c, MIN_FREQ@),
                decimal(s.min_freq as nat),
            ) {
                if policy_path(c, MIN_FREQ@) == policy_path(c, PREFERENCE@) {
                    lemma_number_then_slash(POLICY_PREFIX@, c, MIN_FREQ@, c, PREFERENCE@);
                }
            } else {
                if policy_path(c, MAX_FREQ@) == policy_path(c, PREFERENCE@) {
                    lemma_number_then_slash(POLICY_PREFIX@, c, MAX_FREQ@, c, PREFERENCE@);
                }
            }
        } else if k == 3 {
            if policy_path(c, GOVERNOR@) == policy_path(c, PREFERENCE@) {
                lemma_number_then_slash(POLICY_PREFIX@, c, GOVERNOR@, c, PREFERENCE@);
            }
        }
    }
    lemma_checked_write(
        s,
        h,
        c,
        PREFERENCE@,
        AVAILABLE_PREFERENCES@,
        s.energy_performance_preference@,
        1,
    );
}

/// A processor's scaling governor is written only when the processor offers
/// it: whenever the update asks to write a processor's governor file, the
/// outcome just before came from reading that same processor's list of
/// available governors, and the list holds the governor. What is written
/// there is the governor and a line feed.
pub proof fn lemma_governor_written_only_if_offered(s: CpuSettings, h: Seq<Outcome>, c: nat)
    requires
        cpu_next(s, h) matches Next::Perform(Request::Write { path, .. }) && path == policy_path(
            c,
            GOVERNOR@,
        ),
    ensures
        h.len() > 0,
        cpu_next(s, h.drop_last()) == Next::<UpdateCpuSettingsError>::Perform(
            Request::Read { path: policy_path(c, AVAILABLE_GOVERNORS@) },
        ),
        h.last() matches Outcome::Read(Ok(bytes)) && lists_word(bytes@, s.scaling_governor@),
        cpu_next(s, h) == Next::<UpdateCpuSettingsError>::Perform(
            Request::Write {
                path: policy_path(c, GOVERNOR@),
                chunks: seq![s.scaling_governor@.push('\n')],
            },
        ),
        cpu_next(s, h) == Next::<UpdateCpuSettingsError>::Perform(
            Request::Write {
                path: POLICY_PREFIX@ + decimal(c) + GOVERNOR@,
                chunks: seq![s.scaling_governor@.push('\n')],
            },
        ),
        cpu_next(s, h.drop_last()) == Next::<UpdateCpuSettingsError>::Perform(
            Request::Read { path: POLICY_PREFIX@ + decimal(c) + AVAILABLE_GOVERNORS@ },
        ),
{
    lemma_leaves();
    assert forall|k: int|
        0 <= k < core_steps(s, c).len() && k != 3 implies !(#[trigger] core_steps(
        s,
        c,
    )[k] matches Step::Write { path, .. } && path == policy_path(c, GOVERNOR@)) by {
        if k >= 4 {
            lemma_bound_steps(s, c, k);
            if core_steps(s, c)[k] == line_step(
                policy_path(c, MIN_FREQ@),
                decimal(s.min_freq as nat),
            ) {
                if policy_path(c, MIN_FREQ@) == policy_path(c, GOVERNOR@) {
                    lemma_number_then_slash(POLICY_PREFIX@, c, MIN_FREQ@, c, GOVERNOR@);
                }
            } else {
                if policy_path(c, MAX_FREQ@) == policy_path(c, GOVERNOR@) {
                    lemma_number_then_slash(POLICY_PREFIX@, c, MAX_FREQ@, c, GOVERNOR@);
                }
            }
        } else if k == 1 {
            if policy_path(c, PREFERENCE@) == policy_path(c, GOVERNOR@) {
                lemma_number_then_slash(POLICY_PREFIX@, c, PREFERENCE@, c, GOVERNOR@);
            }
        }
    }
    lemma_checked_write(
        s,
        h,
        c,
        GOVERNOR@,
        AVAILABLE_GOVERNORS@,
        s.scaling_governor@,
        3,
    );
}

/// Each frequency bound that is not 0 is written once per processor, and
/// bounds of 0 are left alone.
pub proof fn lemma_bound_writes_counted(s: CpuSettings, c: nat)
    ensures
        core_steps(s, c).len() == 4 + (if s.min_freq > 0 {
            1int
        } else {
            0
        }) + (if s.max_freq > 0 {
            1int
        } else {
            0
        }),
{
}

/// Every update opens the same way: the dynamic-preference switch is
/// written, then turbo boost, then the range of present processors is read.
pub proof fn lemma_cpu_opening(s: CpuSettings, written: Outcome)
    requires
        written == Outcome::Written(Ok(())),
    ensures
        cpu_next(s, Seq::empty()) == Next::<UpdateCpuSettingsError>::Perform(
            request_of(cpu_head(s)[0]),
        ),
        cpu_next(s, seq![written]) == Next::<UpdateCpuSettingsError>::Perform(
            request_of(cpu_head(s)[1]),
        ),
        cpu_next(s, seq![written, written]) == Next::<UpdateCpuSettingsError>::Perform(
            Request::Read { path: CPU_PRESENT@ },
        ),
{
    assert(seq![written].drop_last() =~= Seq::<Outcome>::empty());
    assert(seq![written, written].drop_last() =~= seq![written]);
}

/// A processor update makes the requests of its plan in order, and only
/// while every step so far passed: first the two head writes, then the read
/// of the `present` file, then the steps of the processors of the range that
/// the file gave.
pub proof fn lemma_cpu_requests_follow_plan(s: CpuSettings, h: Seq<Outcome>)
    requires
        cpu_next(s, h) is Perform,
    ensures
        h.len() < 2 ==> run(cpu_head(s), h) == Progress::At(h.len()) && cpu_next(s, h)
            == Next::<UpdateCpuSettingsError>::Perform(request_of(cpu_head(s)[h.len() as int])),
        h.len() == 2 ==> run(cpu_head(s), h) == Progress::At(2) && cpu_next(s, h)
            == Next::<UpdateCpuSettingsError>::Perform(Request::Read { path: CPU_PRESENT@ }),
        h.len() >= 3 ==> run(cpu_head(s), h.take(2)) == Progress::At(2),
        h.len() >= 3 ==> (present_range(h[2]) matches Ok((a, b)) && h.len() - 3 < cores_steps(
            s,
            a,
            b,
        ).len() && run(cores_steps(s, a, b), h.skip(3)) == Progress::At((h.len() - 3) as nat)
            && cpu_next(s, h) == Next::<UpdateCpuSettingsError>::Perform(
            request_of(cores_steps(s, a, b)[h.len() - 3]),
        )),
{
    if h.len() <= 2 {
        lemma_run_at(cpu_head(s), h);
        if h.len() < 2 {
            lemma_next_is_planned(cpu_head(s), h);
        }
    } else {
        lemma_run_at(cpu_head(s), h.take(2));
        let (a, b) = present_range(h[2])->Ok_0;
        lemma_next_is_planned(cores_steps(s, a, b), h.skip(3));
    }
}

/// An I/O error ends a processor update at once with that error: nothing
/// after the failed read or write is requested. With
/// `lemma_cpu_requests_follow_plan`, what was written before it is a prefix
/// of what an update on which everything succeeds writes.
pub proof fn lemma_cpu_io_failure_ends_update(
    s: CpuSettings,
    h: Seq<Outcome>,
    o: Outcome,
    e: std::io::Error,
)
    requires
        cpu_next(s, h) matches Next::Perform(req) && fits(req, o),
        o == Outcome::Written(Err(e)) || o == Outcome::Read(Err(e)),
    ensures
        cpu_next(s, h.push(o)) == Next::<UpdateCpuSettingsError>::Finish(
            Err(UpdateCpuSettingsError::Io(e)),
        ),
{
    let h1 = h.push(o);
    lemma_cpu_requests_follow_plan(s, h);
    if h.len() < 2 {
        lemma_io_error_fails(cpu_head(s), h, o, e);
    } else if h.len() == 2 {
        assert(h1.take(2) =~= h);
    } else {
        let (a, b) = present_range(h[2])->Ok_0;
        assert(h1.take(2) =~= h.take(2));
        assert(h1[2] == h[2]);
        assert(h1.skip(3) =~= h.skip(3).push(o));
        lemma_io_error_fails(cores_steps(s, a, b), h.skip(3), o, e);
    }
}

/// The files of processor `c` that an update to `s` may write: the
/// preference, the governor, and the frequency bounds that are not 0.
pub open spec fn cpu_policy_file(s: CpuSettings, c: nat, path: Seq<char>) -> bool {
    let dir = POLICY_PREFIX@ + decimal(c);
    ||| path == dir + PREFERENCE@
    ||| path == dir + GOVERNOR@
    ||| (s.min_freq > 0 && path == dir + MIN_FREQ@)
    ||| (s.max_freq > 0 && path == dir + MAX_FREQ@)
}

/// A processor update writes only the named files: the dynamic-preference
/// switch, turbo boost, and for each processor of the present range its
/// preference, its governor and the frequency bounds that are not 0.
#[verifier::rlimit(40)]
pub proof fn lemma_cpu_writes_named_files(s: CpuSettings, h: Seq<Outcome>, path: Seq<char>)
    requires
        cpu_next(s, h) matches Next::Perform(Request::Write { path: p, .. }) && p == path,
    ensures
        h.len() < 2 ==> path == DYNAMIC_EPP@ || path == TURBO_BOOST@,
        h.len() >= 2 ==> h.len() >= 3 && (present_range(h[2]) matches Ok((a, b)) && exists|c: nat|
            a <= c <= b && #[trigger] cpu_policy_file(s, c, path)),
{
    lemma_cpu_requests_follow_plan(s, h);
    if h.len() >= 3 {
        let (a, b) = present_range(h[2])->Ok_0;
        let i = h.len() - 3;
        let (c, j) = lemma_cores_step_at(s, a, b, i);
        if j >= 4 {
            lemma_bound_steps(s, c, j);
        }
        assert(cpu_policy_file(s, c, path));
    }
}

/// How many processors a range holds.
pub open spec fn range_size(first: nat, last: nat) -> nat {
    if first > last {
        0
    } else {
        (last + 1 - first) as nat
    }
}

/// How many frequency bounds of `s` are not 0.
pub open spec fn bound_count(s: CpuSettings) -> nat {
    (if s.min_freq > 0 {
        1nat
    } else {
        0nat
    }) + (if s.max_freq > 0 {
        1nat
    } else {
        0nat
    })
}

proof fn lemma_core_write_count(s: CpuSettings, c: nat)
    ensures
        write_count(core_steps(s, c)) == 2 + bound_count(s),
{
    let x0 = Step::Check {
        path: policy_path(c, AVAILABLE_PREFERENCES@),
        word: s.energy_performance_preference@,
    };
    let x1 = line_step(policy_path(c, PREFERENCE@), s.energy_performance_preference@);
    let x2 = Step::Check { path: policy_path(c, AVAILABLE_GOVERNORS@), word: s.scaling_governor@ };
    let x3 = line_step(policy_path(c, GOVERNOR@), s.scaling_governor@);
    let a = step_if(s.min_freq > 0, line_step(policy_path(c, MIN_FREQ@), decimal(s.min_freq as nat)));
    let b = step_if(s.max_freq > 0, line_step(policy_path(c, MAX_FREQ@), decimal(s.max_freq as nat)));
    assert(seq![x0, x1, x2, x3] =~= seq![x0] + seq![x1] + seq![x2] + seq![x3]);
    lemma_counts_one(x0);
    lemma_counts_one(x1);
    lemma_counts_one(x2);
    lemma_counts_one(x3);
    lemma_counts_one(line_step(policy_path(c, MIN_FREQ@), decimal(s.min_freq as nat)));
    lemma_counts_one(line_step(policy_path(c, MAX_FREQ@), decimal(s.max_freq as nat)));
    lemma_counts_concat(seq![x0], seq![x1]);
    lemma_counts_concat(seq![x0] + seq![x1], seq![x2]);
    lemma_counts_concat(seq![x0] + seq![x1] + seq![x2], seq![x3]);
    lemma_counts_concat(seq![x0, x1, x2, x3], a);
    lemma_counts_concat(seq![x0, x1, x2, x3] + a, b);
    assert(write_count(Seq::<Step>::empty()) == 0);
}

/// A processor update plans two head writes, then two to four writes per
/// processor of the range, by the frequency bounds that are not 0: at most
/// `2 + 4 * range_size(first, last)` writes in all.
pub proof fn lemma_cpu_write_count(s: CpuSettings, first: nat, last: nat)
    ensures
        write_count(cpu_head(s)) == 2,
        write_count(cores_steps(s, first, last)) == range_size(first, last) * (2 + bound_count(
            s,
        )),
        write_count(cpu_head(s)) + write_count(cores_steps(s, first, last)) <= 2 + 4 * range_size(
            first,
            last,
        ),
    decreases last + 1 - first,
{
    let h0 = cpu_head(s)[0];
    let h1 = cpu_head(s)[1];
    assert(cpu_head(s) =~= seq![h0] + seq![h1]);
    lemma_counts_one(h0);
    lemma_counts_one(h1);
    lemma_counts_concat(seq![h0], seq![h1]);
    let k = 2 + bound_count(s);
    if first > last {
        assert(write_count(Seq::<Step>::empty()) == 0);
    } else {
        lemma_cpu_write_count(s, first + 1, last);
        lemma_core_write_count(s, first);
        lemma_counts_concat(core_steps(s, first), cores_steps(s, first + 1, last));
        let n = range_size(first + 1, last);
        assert(range_size(first, last) == n + 1);
        assert((n + 1) * k == n * k + k) by (nonlinear_arith);
    }
    let m = range_size(first, last);
    assert(m * k <= 4 * m) by (nonlinear_arith)
        requires
            k <= 4,
    ;
}

/// Every processor update opens with two one-line writes that follow the
/// mode: `enabled` or `disabled` to the dynamic-preference switch by
/// `dynamic_epp` alone, then `1` or `0` to turbo boost by `turbo_boost`
/// alone; once both went through, it reads the range of present processors.
pub proof fn lemma_cpu_opening_follows_mode(s: CpuSettings)
    ensures
        cpu_next(s, all_written(0)) == Next::<UpdateCpuSettingsError>::Perform(
            Request::Write {
                path: DYNAMIC_EPP@,
                chunks: seq![
                    (if s.dynamic_epp {
                        "enabled"@
                    } else {
                        "disabled"@
                    }).push('\n'),
                ],
            },
        ),
        cpu_next(s, all_written(1)) == Next::<UpdateCpuSettingsError>::Perform(
            Request::Write {
                path: TURBO_BOOST@,
                chunks: seq![
                    (if s.turbo_boost {
                        "1"@
                    } else {
                        "0"@
                    }).push('\n'),
                ],
            },
        ),
        cpu_next(s, all_written(2)) == Next::<UpdateCpuSettingsError>::Perform(
            Request::Read { path: CPU_PRESENT@ },
        ),
{
    reveal_strlit("1");
    reveal_strlit("0");
    let head = cpu_head(s);
    assert(head[0] is Write && head[1] is Write);
    lemma_writes_all_pass(head, 0);
    lemma_writes_all_pass(head, 1);
    lemma_writes_all_pass(head, 2);
    assert(decimal(1) =~= "1"@);
    assert(decimal(0) =~= "0"@);
}

/// After a write of a file of processor `c` went through, the update asks
/// for the next step of the same processor, when there is one.
proof fn lemma_after_policy_write(
    s: CpuSettings,
    h: Seq<Outcome>,
    c: nat,
    leaf: Seq<char>,
    written: Outcome,
) -> (j: int)
    requires
        cpu_next(s, h) matches Next::Perform(Request::Write { path, .. }) && path == policy_path(
            c,
            leaf,
        ),
        leaf.len() > 0 && leaf[0] == '/',
        written == Outcome::Written(Ok(())),
    ensures
        0 <= j < core_steps(s, c).len(),
        core_steps(s, c)[j] matches Step::Write { path, .. } && path == policy_path(c, leaf),
        j + 1 < core_steps(s, c).len() ==> cpu_next(s, h.push(written))
            == Next::<UpdateCpuSettingsError>::Perform(request_of(core_steps(s, c)[j + 1])),
{
    let (first, last, j) = lemma_policy_write(s, h, c, leaf);
    let cs = cores_steps(s, first, last);
    let hc = h.skip(3);
    let h1 = h.push(written);
    assert(h1.take(2) =~= h.take(2));
    assert(h1[2] == h[2]);
    assert(h1.skip(3) =~= hc.push(written));
    assert(hc.push(written).drop_last() =~= hc);
    lemma_run_at(cs, hc);
    j
}

/// The four steps every processor has, then its bounds.
proof fn lemma_core_steps_parts(s: CpuSettings, c: nat)
    ensures
        core_steps(s, c).len() >= 4,
        core_steps(s, c)[3] == line_step(policy_path(c, GOVERNOR@), s.scaling_governor@),
        s.min_freq > 0 ==> core_steps(s, c)[4] == line_step(
            policy_path(c, MIN_FREQ@),
            decimal(s.min_freq as nat),
        ),
        s.min_freq == 0 && s.max_freq > 0 ==> core_steps(s, c)[4] == line_step(
            policy_path(c, MAX_FREQ@),
            decimal(s.max_freq as nat),
        ),
        s.min_freq > 0 && s.max_freq > 0 ==> core_steps(s, c)[5] == line_step(
            policy_path(c, MAX_FREQ@),
            decimal(s.max_freq as nat),
        ),
{
}

/// A frequency bound is written only when it is not 0, and what is written
/// to a processor's bound file is that bound in decimal and a line feed.
pub proof fn lemma_bound_written_is_its_value(s: CpuSettings, h: Seq<Outcome>, c: nat, path: Seq<char>)
    requires
        cpu_next(s, h) matches Next::Perform(Request::Write { path: p, .. }) && p == path,
    ensures
        path == POLICY_PREFIX@ + decimal(c) + MIN_FREQ@ ==> s.min_freq > 0 && cpu_next(s, h)
            == Next::<UpdateCpuSettingsError>::Perform(
            Request::Write { path, chunks: seq![decimal(s.min_freq as nat).push('\n')] },
        ),
        path == POLICY_PREFIX@ + decimal(c) + MAX_FREQ@ ==> s.max_freq > 0 && cpu_next(s, h)
            == Next::<UpdateCpuSettingsError>::Perform(
            Request::Write { path, chunks: seq![decimal(s.max_freq as nat).push('\n')] },
        ),
{
    lemma_leaves();
    if policy_path(c, MIN_FREQ@) == policy_path(c, MAX_FREQ@) {
        lemma_number_then_slash(POLICY_PREFIX@, c, MIN_FREQ@, c, MAX_FREQ@);
    }
    if path == policy_path(c, MIN_FREQ@) || path == policy_path(c, MAX_FREQ@) {
        let leaf = if path == policy_path(c, MIN_FREQ@) {
            MIN_FREQ@
        } else {
            MAX_FREQ@
        };
        let (first, last, j) = lemma_policy_write(s, h, c, leaf);
        let st = core_steps(s, c)[j];
        if j == 1 {
            lemma_number_then_slash(POLICY_PREFIX@, c, PREFERENCE@, c, leaf);
        } else if j == 3 {
            lemma_number_then_slash(POLICY_PREFIX@, c, GOVERNOR@, c, leaf);
        } else if j >= 4 {
            lemma_bound_steps(s, c, j);
            if st == line_step(policy_path(c, MIN_FREQ@), decimal(s.min_freq as nat)) {
                if leaf == MAX_FREQ@ {
                    lemma_number_then_slash(POLICY_PREFIX@, c, MIN_FREQ@, c, leaf);
                }
                assert(leaf == MIN_FREQ@);
            } else {
                if leaf == MIN_FREQ@ {
                    lemma_number_then_slash(POLICY_PREFIX@, c, MAX_FREQ@, c, leaf);
                }
                assert(leaf == MAX_FREQ@);
            }
        }
        assert(j >= 4);
    }
}

/// Once a processor's governor was written, a minimum frequency that is not
/// 0 is written next to the same processor, and otherwise a maximum that is
/// not 0 is.
pub proof fn lemma_minimum_follows_governor(
    s: CpuSettings,
    h: Seq<Outcome>,
    c: nat,
    written: Outcome,
)
    requires
        cpu_next(s, h) matches Next::Perform(Request::Write { path, .. }) && path == policy_path(
            c,
            GOVERNOR@,
        ),
        written == Outcome::Written(Ok(())),
    ensures
        s.min_freq > 0 ==> cpu_next(s, h.push(written))
            == Next::<UpdateCpuSettingsError>::Perform(
            Request::Write {
                path: POLICY_PREFIX@ + decimal(c) + MIN_FREQ@,
                chunks: seq![decimal(s.min_freq as nat).push('\n')],
            },
        ),
        s.min_freq == 0 && s.max_freq > 0 ==> cpu_next(s, h.push(written))
            == Next::<UpdateCpuSettingsError>::Perform(
            Request::Write {
                path: POLICY_PREFIX@ + decimal(c) + MAX_FREQ@,
                chunks: seq![decimal(s.max_freq as nat).push('\n')],
            },
        ),
{
    lemma_leaves();
    lemma_core_steps_parts(s, c);
    let j = lemma_after_policy_write(s, h, c, GOVERNOR@, written);
    let st = core_steps(s, c)[j];
    if j == 1 {
        lemma_number_then_slash(POLICY_PREFIX@, c, PREFERENCE@, c, GOVERNOR@);
    } else if j >= 4 {
        lemma_bound_steps(s, c, j);
        if st == line_step(policy_path(c, MIN_FREQ@), decimal(s.min_freq as nat)) {
            lemma_number_then_slash(POLICY_PREFIX@, c, MIN_FREQ@, c, GOVERNOR@);
        } else {
            lemma_number_then_slash(POLICY_PREFIX@, c, MAX_FREQ@, c, GOVERNOR@);
        }
    }
}

/// Once a processor's minimum frequency was written, a maximum that is not 0
/// is written next to the same processor.
pub proof fn lemma_maximum_follows_minimum(
    s: CpuSettings,
    h: Seq<Outcome>,
    c: nat,
    written: Outcome,
)
    requires
        cpu_next(s, h) matches Next::Perform(Request::Write { path, .. }) && path == policy_path(
            c,
            MIN_FREQ@,
        ),
        written == Outcome::Written(Ok(())),
    ensures
        s.max_freq > 0 ==> cpu_next(s, h.push(written))
            == Next::<UpdateCpuSettingsError>::Perform(
            Request::Write {
                path: POLICY_PREFIX@ + decimal(c) + MAX_FREQ@,
                chunks: seq![decimal(s.max_freq as nat).push('\n')],
            },
        ),
{
    lemma_leaves();
    lemma_core_steps_parts(s, c);
    let j = lemma_after_policy_write(s, h, c, MIN_FREQ@, written);
    let st = core_steps(s, c)[j];
    if j == 1 {
        lemma_number_then_slash(POLICY_PREFIX@, c, PREFERENCE@, c, MIN_FREQ@);
    } else if j == 3 {
        lemma_number_then_slash(POLICY_PREFIX@, c, GOVERNOR@, c, MIN_FREQ@);
    } else if j >= 4 {
        lemma_bound_steps(s, c, j);
        if st == line_step(policy_path(c, MAX_FREQ@), decimal(s.max_freq as nat)) {
            lemma_number_then_slash(POLICY_PREFIX@, c, MAX_FREQ@, c, MIN_FREQ@);
        }
        assert(j == 4);
    }
}

/// A `present` file whose text, line feeds aside, is one number names that
/// processor alone.
pub proof fn lemma_core_range_of_number(bytes: Seq<u8>, a: nat)
    requires
        valid_utf8(bytes),
        a <= usize::MAX,
        strip_newlines(decode_utf8(bytes)) == decimal(a),
    ensures
        core_range(bytes) == Some((a, a)),
{
    let t = present_text(bytes);
    lemma_parse_decimal(a);
    lemma_decimal_spells(a);
    assert forall|k: int| 0 <= k < t.len() implies #[trigger] t[k] != '-' by {
        assert(is_digit(t[k]));
    }
}

/// A `present` file whose text, line feeds aside, is two numbers around a
/// dash names the range from the first to the second.
pub proof fn lemma_core_range_of_pair(bytes: Seq<u8>, a: nat, b: nat)
    requires
        valid_utf8(bytes),
        a <= usize::MAX,
        b <= usize::MAX,
        strip_newlines(decode_utf8(bytes)) == decimal(a) + seq!['-'] + decimal(b),
    ensures
        core_range(bytes) == Some((a, b)),
{
    let t = present_text(bytes);
    let da = decimal(a);
    let db = decimal(b);
    let i = da.len() as int;
    lemma_parse_decimal(a);
    lemma_parse_decimal(b);
    lemma_decimal_spells(a);
    lemma_decimal_spells(b);
    assert(t[i] == '-');
    assert(!dash_free(t));
    assert(t.subrange(0, i) =~= da);
    assert(t.subrange(i + 1, t.len() as int) =~= db);
    assert forall|k: int| 0 <= k < da.len() implies #[trigger] da[k] != '-' by {
        assert(is_digit(da[k]));
    }
    assert forall|k: int| 0 <= k < db.len() implies #[trigger] db[k] != '-' by {
        assert(is_digit(db[k]));
    }
    assert(single_dash_at(t, i));
    let m = choose|m: int| single_dash_at(t, m);
    assert(m == i) by {
        if m < i {
            assert(t.subrange(0, i)[m] == '-');
        } else if m > i {
            assert(t.subrange(0, m)[i] == '-');
        }
    }
}

/// A `present` file whose text, line feeds aside, holds two dashes names no
/// range.
pub proof fn lemma_core_range_two_dashes(bytes: Seq<u8>, i: int, j: int)
    requires
        0 <= i < j < present_text(bytes).len(),
        present_text(bytes)[i] == '-',
        present_text(bytes)[j] == '-',
    ensures
        core_range(bytes) is None,
{
    let t = present_text(bytes);
    assert(t[i] == '-');
    assert forall|m: int| !single_dash_at(t, m) by {
        if single_dash_at(t, m) {
            if m <= i {
                assert(t.subrange(m + 1, t.len() as int)[j - m - 1] == '-');
            } else {
                assert(t.subrange(0, m)[i] == '-');
            }
        }
    }
}

} // verus!
