//! Graphics card clocks.
use crate::hardware::platform::line_of;
use crate::sysfs::{
    chunk_views, fits, lemma_counts_concat, lemma_counts_one, lemma_next_is_planned, lemma_run_at,
    lemma_writes_all_pass, lemma_writes_fail_only_on_io, line_count, all_written, next_of, request_of, step_views, write_count,
    step_if, Action, ExecStep, Next, Outcome, Request, Step, StepFailure, StepRunner,
};
use crate::text::{decimal, decimal_string, lemma_number_then_slash};
use vstd::prelude::*;

verus! {

/// The start of a card's directory.
pub const CARD_PREFIX: &'static str = "/sys/class/drm/card";

/// The file, under a card, that chooses between automatic and manual clocks.
pub const PERFORMANCE_LEVEL: &'static str = "/device/power_dpm_force_performance_level";

/// The file, under a card, that takes clock ranges.
pub const CLOCK_VOLTAGE: &'static str = "/device/pp_od_clk_voltage";

/// The line that commits the clock ranges written before it.
pub const COMMIT: &'static str = "c\n";

/// The graphics part of a performance mode.
#[derive(Debug)]
pub struct GpuSettings {
    pub card: u32,
    pub gpu_freq_min: u32,
    pub gpu_freq_max: u32,
    pub vram_freq_min: u32,
    pub vram_freq_max: u32,
    pub is_set: bool,
}

/// A file under a card's directory.
pub open spec fn card_path(card: nat, leaf: Seq<char>) -> Seq<char> {
    CARD_PREFIX@ + decimal(card) + leaf
}

/// The write of one clock bound: `prefix` and the frequency, then a commit.
pub open spec fn clock_step(card: nat, prefix: Seq<char>, freq: nat) -> Step {
    Step::Write {
        path: card_path(card, CLOCK_VOLTAGE@),
        chunks: seq![(prefix + decimal(freq)).push('\n'), COMMIT@],
    }
}

/// The write of the performance level.
pub open spec fn level_step(card: nat, level: Seq<char>) -> Step {
    Step::Write { path: card_path(card, PERFORMANCE_LEVEL@), chunks: seq![level.push('\n')] }
}

/// The steps of an update. When the mode sets nothing, the card goes back to
/// automatic clocks. Otherwise it goes to manual clocks and each bound that is
/// not 0 is written and committed: core clock low and high, then memory clock
/// low and high.
pub open spec fn gpu_steps(s: GpuSettings) -> Seq<Step> {
    let card = s.card as nat;
    if !s.is_set {
        seq![level_step(card, "auto"@)]
    } else {
        seq![level_step(card, "manual"@)] + step_if(
            s.gpu_freq_min > 0,
            clock_step(card, "s 0 "@, s.gpu_freq_min as nat),
        ) + step_if(s.gpu_freq_max > 0, clock_step(card, "s 1 "@, s.gpu_freq_max as nat))
            + step_if(s.vram_freq_min > 0, clock_step(card, "m 0 "@, s.vram_freq_min as nat))
            + step_if(s.vram_freq_max > 0, clock_step(card, "m 1 "@, s.vram_freq_max as nat))
    }
}

/// The I/O error of a failure (a plan of writes fails on nothing else).
pub open spec fn io_error_of(f: StepFailure) -> std::io::Error {
    match f {
        StepFailure::Io(e) => e,
        StepFailure::NotListed => arbitrary(),
    }
}

pub open spec fn gpu_next_of(n: Next<StepFailure>) -> Next<std::io::Error> {
    match n {
        Next::Perform(r) => Next::Perform(r),
        Next::Finish(Ok(())) => Next::Finish(Ok(())),
        Next::Finish(Err(f)) => Next::Finish(Err(io_error_of(f))),
    }
}

/// What comes after the outcomes `h` in an update to `s`.
pub open spec fn gpu_next(s: GpuSettings, h: Seq<Outcome>) -> Next<std::io::Error> {
    gpu_next_of(next_of(gpu_steps(s), h))
}

fn gpu_action(a: Action<StepFailure>) -> (r: Action<std::io::Error>)
    requires
        !(a@ matches Next::Finish(Err(f)) && f is NotListed),
    ensures
        r@ == gpu_next_of(a@),
{
    match a {
        Action::Write { path, chunks } => Action::Write { path, chunks },
        Action::Read { path } => Action::Read { path },
        Action::Done(Ok(())) => Action::Done(Ok(())),
        Action::Done(Err(StepFailure::Io(e))) => Action::Done(Err(e)),
        Action::Done(Err(StepFailure::NotListed)) => unreached(),
    }
}

/// `CARD_PREFIX`, the card's number, then `leaf`.
fn card_file(card: u32, leaf: &str) -> (r: String)
    ensures
        r@ == card_path(card as nat, leaf@),
{
    let mut p = String::from_str(CARD_PREFIX);
    let n = decimal_string(card as u64);
    p.append(n.as_str());
    p.append(leaf);
    p
}

fn level_exec(card: u32, level: &str) -> (r: ExecStep)
    ensures
        r@ == level_step(card as nat, level@),
{
    let mut chunks: Vec<String> = Vec::new();
    chunks.push(line_of(level));
    assert(chunk_views(chunks@) =~= seq![level@.push('\n')]);
    ExecStep::Write { path: card_file(card, PERFORMANCE_LEVEL), chunks }
}

fn clock_exec(card: u32, prefix: &str, freq: u32) -> (r: ExecStep)
    ensures
        r@ == clock_step(card as nat, prefix@, freq as nat),
{
    let mut bound = String::from_str(prefix);
    let n = decimal_string(freq as u64);
    bound.append(n.as_str());
    let mut chunks: Vec<String> = Vec::new();
    chunks.push(line_of(bound.as_str()));
    chunks.push(String::from_str(COMMIT));
    assert(chunk_views(chunks@) =~= seq![(prefix@ + decimal(freq as nat)).push('\n'), COMMIT@]);
    ExecStep::Write { path: card_file(card, CLOCK_VOLTAGE), chunks }
}

/// Appends `st` to `steps` when `b` holds.
fn push_if(steps: &mut Vec<ExecStep>, b: bool, st: ExecStep)
    ensures
        step_views(final(steps)@) == step_views(old(steps)@) + step_if(b, st@),
{
    let ghost before = step_views(steps@);
    if b {
        steps.push(st);
        assert(step_views(steps@) =~= before + step_if(b, st@));
    } else {
        assert(step_views(steps@) =~= before + step_if(b, st@));
    }
}

/// The plan of an update to `s`.
fn gpu_plan(s: &GpuSettings) -> (v: Vec<ExecStep>)
    ensures
        step_views(v@) == gpu_steps(*s),
{
    let mut steps: Vec<ExecStep> = Vec::new();
    if !s.is_set {
        steps.push(level_exec(s.card, "auto"));
        assert(step_views(steps@) =~= gpu_steps(*s));
        return steps;
    }
    steps.push(level_exec(s.card, "manual"));
    assert(step_views(steps@) =~= seq![level_step(s.card as nat, "manual"@)]);
    push_if(&mut steps, s.gpu_freq_min > 0, clock_exec(s.card, "s 0 ", s.gpu_freq_min));
    push_if(&mut steps, s.gpu_freq_max > 0, clock_exec(s.card, "s 1 ", s.gpu_freq_max));
    push_if(&mut steps, s.vram_freq_min > 0, clock_exec(s.card, "m 0 ", s.vram_freq_min));
    push_if(&mut steps, s.vram_freq_max > 0, clock_exec(s.card, "m 1 ", s.vram_freq_max));
    steps
}

/// Every step of an update of the card is a write.
pub proof fn lemma_gpu_steps_are_writes(s: GpuSettings)
    ensures
        forall|k: int| 0 <= k < gpu_steps(s).len() ==> #[trigger] gpu_steps(s)[k] is Write,
{
    let card = s.card as nat;
    let a = seq![level_step(card, "manual"@)];
    let b = step_if(s.gpu_freq_min > 0, clock_step(card, "s 0 "@, s.gpu_freq_min as nat));
    let c = step_if(s.gpu_freq_max > 0, clock_step(card, "s 1 "@, s.gpu_freq_max as nat));
    let d = step_if(s.vram_freq_min > 0, clock_step(card, "m 0 "@, s.vram_freq_min as nat));
    let e = step_if(s.vram_freq_max > 0, clock_step(card, "m 1 "@, s.vram_freq_max as nat));
    assert forall|k: int| 0 <= k < gpu_steps(s).len() implies #[trigger] gpu_steps(s)[k] is Write by {
        if s.is_set {
            let all = a + b + c + d + e;
            assert(gpu_steps(s) == all);
            if k < a.len() {
            } else if k < a.len() + b.len() {
                assert(all[k] == b[k - a.len()]);
            } else if k < a.len() + b.len() + c.len() {
                assert(all[k] == c[k - a.len() - b.len()]);
            } else if k < a.len() + b.len() + c.len() + d.len() {
                assert(all[k] == d[k - a.len() - b.len() - c.len()]);
            } else {
                assert(all[k] == e[k - a.len() - b.len() - c.len() - d.len()]);
            }
        }
    }
}

/// An update of the card in progress.
pub struct GpuUpdate {
    runner: StepRunner,
    settings: Ghost<GpuSettings>,
}

impl GpuUpdate {
    /// The settings being applied.
    pub closed spec fn settings(&self) -> GpuSettings {
        self.settings@
    }

    /// The outcomes handed in so far.
    pub closed spec fn history(&self) -> Seq<Outcome> {
        self.runner.history()
    }

    pub closed spec fn wf(&self) -> bool {
        &&& self.runner.wf()
        &&& self.runner.plan() == gpu_steps(self.settings@)
    }

    /// What comes next.
    pub open spec fn next(&self) -> Next<std::io::Error> {
        gpu_next(self.settings(), self.history())
    }

    /// Takes the outcome of the last request and returns what comes next.
    pub fn step(&mut self, out: Outcome) -> (a: Action<std::io::Error>)
        requires
            old(self).wf(),
            old(self).next() matches Next::Perform(req) && fits(req, out),
        ensures
            final(self).wf(),
            final(self).settings() == old(self).settings(),
            final(self).history() == old(self).history().push(out),
            a@ == final(self).next(),
    {
        proof {
            lemma_run_at(self.runner.plan(), self.runner.history());
        }
        let a = self.runner.advance(out);
        proof {
            lemma_gpu_steps_are_writes(self.settings@);
            lemma_writes_fail_only_on_io(self.runner.plan(), self.runner.history());
        }
        gpu_action(a)
    }
}

/// Starts an update of the card to `settings`. Returns the update and its
/// first action.
pub fn update_video_settings(settings: &GpuSettings) -> (r: (GpuUpdate, Action<std::io::Error>))
    ensures
        r.0.wf(),
        r.0.settings() == *settings,
        r.0.history() == Seq::<Outcome>::empty(),
        r.1@ == r.0.next(),
{
    let runner = StepRunner::new(gpu_plan(settings));
    let a = runner.first();
    let update = GpuUpdate { runner, settings: Ghost(*settings) };
    (update, gpu_action(a))
}

/// A mode that sets nothing hands the card back to automatic clocks and does
/// nothing more: the one request is the write of `auto` to the performance
/// level, and once it went through the update is over.
pub proof fn lemma_unset_mode_goes_auto(s: GpuSettings, written: Outcome)
    requires
        !s.is_set,
        written == Outcome::Written(Ok(())),
    ensures
        gpu_next(s, Seq::empty()) == Next::<std::io::Error>::Perform(
            Request::Write {
                path: card_path(s.card as nat, PERFORMANCE_LEVEL@),
                chunks: seq!["auto"@.push('\n')],
            },
        ),
        gpu_next(s, seq![written]) == Next::<std::io::Error>::Finish(Ok(())),
        gpu_next(s, Seq::empty()) == Next::<std::io::Error>::Perform(
            Request::Write {
                path: CARD_PREFIX@ + decimal(s.card as nat) + PERFORMANCE_LEVEL@,
                chunks: seq!["auto"@.push('\n')],
            },
        ),
{
    assert(seq![written].drop_last() =~= Seq::<Outcome>::empty());
}

/// A mode that sets clocks puts the card in manual mode before anything
/// else: the first request is the write of `manual` to the performance level.
pub proof fn lemma_set_mode_starts_manual(s: GpuSettings)
    requires
        s.is_set,
    ensures
        gpu_next(s, Seq::empty()) == Next::<std::io::Error>::Perform(
            Request::Write {
                path: card_path(s.card as nat, PERFORMANCE_LEVEL@),
                chunks: seq!["manual"@.push('\n')],
            },
        ),
{
}

/// One if `b` holds, zero otherwise.
pub open spec fn count_if(b: bool) -> nat {
    if b {
        1
    } else {
        0
    }
}

/// Each clock bound that is not 0 is written once, and bounds of 0 are left
/// alone.
pub proof fn lemma_clock_writes_counted(s: GpuSettings)
    requires
        s.is_set,
    ensures
        gpu_steps(s).len() == 1 + count_if(s.gpu_freq_min > 0) + count_if(s.gpu_freq_max > 0)
            + count_if(s.vram_freq_min > 0) + count_if(s.vram_freq_max > 0),
{
}

/// The word written to the performance level.
pub open spec fn level_word(s: GpuSettings) -> Seq<char> {
    if s.is_set {
        "manual"@
    } else {
        "auto"@
    }
}

/// The clock file of a card is not its performance-level file.
proof fn lemma_level_and_clock_differ(card: nat)
    ensures
        card_path(card, CLOCK_VOLTAGE@) != card_path(card, PERFORMANCE_LEVEL@),
{
    reveal_strlit("/device/pp_od_clk_voltage");
    reveal_strlit("/device/power_dpm_force_performance_level");
    if card_path(card, CLOCK_VOLTAGE@) == card_path(card, PERFORMANCE_LEVEL@) {
        lemma_number_then_slash(CARD_PREFIX@, card, CLOCK_VOLTAGE@, card, PERFORMANCE_LEVEL@);
    }
}

/// Step `k` of an update: the level first, clock bounds with their commit after.
proof fn lemma_gpu_step_shape(s: GpuSettings, k: int)
    requires
        0 <= k < gpu_steps(s).len(),
    ensures
        k == 0 ==> gpu_steps(s)[k] == level_step(s.card as nat, level_word(s)),
        k > 0 ==> s.is_set,
        k > 0 ==> (gpu_steps(s)[k] matches Step::Write { path, chunks } && path == card_path(
            s.card as nat,
            CLOCK_VOLTAGE@,
        ) && chunks.len() == 2 && chunks[1] == COMMIT@),
{
    let card = s.card as nat;
    let a = seq![level_step(card, "manual"@)];
    let b = step_if(s.gpu_freq_min > 0, clock_step(card, "s 0 "@, s.gpu_freq_min as nat));
    let c = step_if(s.gpu_freq_max > 0, clock_step(card, "s 1 "@, s.gpu_freq_max as nat));
    let d = step_if(s.vram_freq_min > 0, clock_step(card, "m 0 "@, s.vram_freq_min as nat));
    let e = step_if(s.vram_freq_max > 0, clock_step(card, "m 1 "@, s.vram_freq_max as nat));
    if s.is_set {
        let all = a + b + c + d + e;
        assert(gpu_steps(s) == all);
        if k < a.len() {
        } else if k < a.len() + b.len() {
            assert(all[k] == b[k - a.len()]);
        } else if k < a.len() + b.len() + c.len() {
            assert(all[k] == c[k - a.len() - b.len()]);
        } else if k < a.len() + b.len() + c.len() + d.len() {
            assert(all[k] == d[k - a.len() - b.len() - c.len()]);
        } else {
            assert(all[k] == e[k - a.len() - b.len() - c.len() - d.len()]);
        }
    }
}

/// Every request of a graphics card update is the write of the plan's step
/// at its position. The first writes the performance level, once: `manual`,
/// or `auto` for a mode that sets nothing, which then writes nothing else.
/// Each later request writes one clock bound to the clock file, never the
/// level file, and commits it in the same write.
pub proof fn lemma_gpu_request_shape(s: GpuSettings, h: Seq<Outcome>)
    requires
        gpu_next(s, h) is Perform,
    ensures
        h.len() < gpu_steps(s).len(),
        gpu_next(s, h) == Next::<std::io::Error>::Perform(request_of(gpu_steps(s)[h.len() as int])),
        h.len() == 0 ==> gpu_next(s, h) == Next::<std::io::Error>::Perform(
            Request::Write {
                path: card_path(s.card as nat, PERFORMANCE_LEVEL@),
                chunks: seq![level_word(s).push('\n')],
            },
        ),
        h.len() > 0 ==> s.is_set,
        h.len() > 0 ==> (gpu_next(s, h) matches Next::Perform(Request::Write { path, chunks })
            && path == card_path(s.card as nat, CLOCK_VOLTAGE@) && path != card_path(
            s.card as nat,
            PERFORMANCE_LEVEL@,
        ) && chunks.len() == 2 && chunks[1] == COMMIT@),
{
    lemma_next_is_planned(gpu_steps(s), h);
    lemma_gpu_step_shape(s, h.len() as int);
    lemma_level_and_clock_differ(s.card as nat);
}

/// The counts of a clock bound that may be left out.
proof fn lemma_counts_bound(b: bool, card: nat, prefix: Seq<char>, freq: nat)
    ensures
        write_count(step_if(b, clock_step(card, prefix, freq))) == count_if(b),
        line_count(step_if(b, clock_step(card, prefix, freq))) == 2 * count_if(b),
{
    lemma_counts_one(clock_step(card, prefix, freq));
}

/// A graphics card update plans at most five writes and nine lines: the
/// level, then up to four clock bounds, each with its commit.
pub proof fn lemma_gpu_line_bound(s: GpuSettings)
    ensures
        gpu_steps(s).len() <= 5,
        write_count(gpu_steps(s)) == gpu_steps(s).len(),
        line_count(gpu_steps(s)) + 1 == 2 * gpu_steps(s).len(),
        line_count(gpu_steps(s)) <= 9,
{
    let card = s.card as nat;
    if !s.is_set {
        lemma_counts_one(level_step(card, "auto"@));
    } else {
        let a = seq![level_step(card, "manual"@)];
        let b = step_if(s.gpu_freq_min > 0, clock_step(card, "s 0 "@, s.gpu_freq_min as nat));
        let c = step_if(s.gpu_freq_max > 0, clock_step(card, "s 1 "@, s.gpu_freq_max as nat));
        let d = step_if(s.vram_freq_min > 0, clock_step(card, "m 0 "@, s.vram_freq_min as nat));
        let e = step_if(s.vram_freq_max > 0, clock_step(card, "m 1 "@, s.vram_freq_max as nat));
        lemma_counts_one(level_step(card, "manual"@));
        lemma_counts_bound(s.gpu_freq_min > 0, card, "s 0 "@, s.gpu_freq_min as nat);
        lemma_counts_bound(s.gpu_freq_max > 0, card, "s 1 "@, s.gpu_freq_max as nat);
        lemma_counts_bound(s.vram_freq_min > 0, card, "m 0 "@, s.vram_freq_min as nat);
        lemma_counts_bound(s.vram_freq_max > 0, card, "m 1 "@, s.vram_freq_max as nat);
        lemma_counts_concat(a, b);
        lemma_counts_concat(a + b, c);
        lemma_counts_concat(a + b + c, d);
        lemma_counts_concat(a + b + c + d, e);
    }
}

/// The write of a clock bound: the line `label` and the frequency in decimal,
/// then the commit line, to the card's clock file.
pub open spec fn expected_clock_write(card: u32, label: Seq<char>, freq: u32) -> Request {
    Request::Write {
        path: CARD_PREFIX@ + decimal(card as nat) + CLOCK_VOLTAGE@,
        chunks: seq![(label + decimal(freq as nat)).push('\n'), "c\n"@],
    }
}

/// In a mode that sets clocks, an update on which every write goes through
/// writes `manual` to the performance level, then each bound that is not 0,
/// with its own value, in the order core low (`s 0`), core high (`s 1`),
/// memory low (`m 0`), memory high (`m 1`), each at the position that the
/// bounds before it leave; after the last of them the update ends well. A
/// bound of 0 has no write: the positions leave no room for one.
pub proof fn lemma_set_mode_writes_each_bound(s: GpuSettings)
    requires
        s.is_set,
    ensures
        gpu_next(s, all_written(0)) == Next::<std::io::Error>::Perform(
            Request::Write {
                path: CARD_PREFIX@ + decimal(s.card as nat) + PERFORMANCE_LEVEL@,
                chunks: seq!["manual"@.push('\n')],
            },
        ),
        s.gpu_freq_min > 0 ==> gpu_next(s, all_written(1)) == Next::<std::io::Error>::Perform(
            expected_clock_write(s.card, "s 0 "@, s.gpu_freq_min),
        ),
        s.gpu_freq_max > 0 ==> gpu_next(s, all_written(1 + count_if(s.gpu_freq_min > 0)))
            == Next::<std::io::Error>::Perform(
            expected_clock_write(s.card, "s 1 "@, s.gpu_freq_max),
        ),
        s.vram_freq_min > 0 ==> gpu_next(
            s,
            all_written(1 + count_if(s.gpu_freq_min > 0) + count_if(s.gpu_freq_max > 0)),
        ) == Next::<std::io::Error>::Perform(
            expected_clock_write(s.card, "m 0 "@, s.vram_freq_min),
        ),
        s.vram_freq_max > 0 ==> gpu_next(
            s,
            all_written(
                1 + count_if(s.gpu_freq_min > 0) + count_if(s.gpu_freq_max > 0) + count_if(
                    s.vram_freq_min > 0,
                ),
            ),
        ) == Next::<std::io::Error>::Perform(
            expected_clock_write(s.card, "m 1 "@, s.vram_freq_max),
        ),
        gpu_next(
            s,
            all_written(
                1 + count_if(s.gpu_freq_min > 0) + count_if(s.gpu_freq_max > 0) + count_if(
                    s.vram_freq_min > 0,
                ) + count_if(s.vram_freq_max > 0),
            ),
        ) == Next::<std::io::Error>::Finish(Ok(())),
{
    let card = s.card as nat;
    let steps = gpu_steps(s);
    let a = seq![level_step(card, "manual"@)];
    let b = step_if(s.gpu_freq_min > 0, clock_step(card, "s 0 "@, s.gpu_freq_min as nat));
    let c = step_if(s.gpu_freq_max > 0, clock_step(card, "s 1 "@, s.gpu_freq_max as nat));
    let d = step_if(s.vram_freq_min > 0, clock_step(card, "m 0 "@, s.vram_freq_min as nat));
    let e = step_if(s.vram_freq_max > 0, clock_step(card, "m 1 "@, s.vram_freq_max as nat));
    assert(steps == a + b + c + d + e);
    lemma_gpu_steps_are_writes(s);
    let n1 = 1 + count_if(s.gpu_freq_min > 0);
    let n2 = n1 + count_if(s.gpu_freq_max > 0);
    let n3 = n2 + count_if(s.vram_freq_min > 0);
    let n4 = n3 + count_if(s.vram_freq_max > 0);
    assert(steps.len() == n4);
    lemma_writes_all_pass(steps, 0);
    lemma_writes_all_pass(steps, n4);
    if s.gpu_freq_min > 0 {
        lemma_writes_all_pass(steps, 1);
        assert(steps[1] == b[0]);
    }
    if s.gpu_freq_max > 0 {
        lemma_writes_all_pass(steps, n1);
        assert(steps[n1 as int] == c[0]);
    }
    if s.vram_freq_min > 0 {
        lemma_writes_all_pass(steps, n2);
        assert(steps[n2 as int] == d[0]);
    }
    if s.vram_freq_max > 0 {
        lemma_writes_all_pass(steps, n3);
        assert(steps[n3 as int] == e[0]);
    }
}

} // verus!
