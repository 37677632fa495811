//! The ACPI platform profile.
use crate::sysfs::{
    chunk_views, fits, lemma_checks_before_passed, lemma_next_is_planned, lemma_run_at, next_of, Request, Action, ExecStep, Next, Outcome, Step, StepFailure, StepRunner, step_views,
};
use crate::text::{lists_word, push_char};
use vstd::prelude::*;
use vstd::string::to_string_from_display_ensures;

verus! {

/// Where the firmware lists the profiles it offers.
pub const PLATFORM_PROFILE_CHOICES: &'static str = "/sys/firmware/acpi/platform_profile_choices";

/// Where the current profile is set.
pub const PLATFORM_PROFILE: &'static str = "/sys/firmware/acpi/platform_profile";

/// The platform part of a performance mode.
#[derive(Debug)]
pub struct PlatformSettings {
    pub profile: String,
}

/// Why an update of the platform profile failed.
#[derive(Debug)]
pub enum UpdatePlatformSettingsError {
    Io(std::io::Error),
    /// The firmware does not offer the profile.
    InvalidPlatformProfile,
}

impl From<std::io::Error> for UpdatePlatformSettingsError {
    fn from(err: std::io::Error) -> (r: Self) {
        UpdatePlatformSettingsError::Io(err)
    }
}

impl vstd::std_specs::convert::FromSpecImpl<std::io::Error> for UpdatePlatformSettingsError {
    open spec fn obeys_from_spec() -> bool {
        true
    }

    open spec fn from_spec(err: std::io::Error) -> Self {
        UpdatePlatformSettingsError::Io(err)
    }
}

impl UpdatePlatformSettingsError {
    /// The error's text, as its display shows it.
    pub fn message(&self) -> (r: String)
        ensures
            match self {
                UpdatePlatformSettingsError::Io(e) => exists|t: String|
                    to_string_from_display_ensures::<std::io::Error>(e, t) && r@ == "IO error: "@
                        + t@,
                UpdatePlatformSettingsError::InvalidPlatformProfile => r@
                    == "Invalid platform profile"@,
            },
    {
        match self {
            UpdatePlatformSettingsError::Io(e) => {
                let t = e.to_string();
                let mut r = String::from_str("IO error: ");
                r.append(t.as_str());
                r
            },
            UpdatePlatformSettingsError::InvalidPlatformProfile => String::from_str(
                "Invalid platform profile",
            ),
        }
    }

    /// The I/O error underneath, if there is one.
    pub fn source(&self) -> (r: Option<&std::io::Error>)
        ensures
            match self {
                UpdatePlatformSettingsError::Io(e) => r == Some(e),
                _ => r is None,
            },
    {
        match self {
            UpdatePlatformSettingsError::Io(e) => Some(e),
            _ => None,
        }
    }
}

/// The steps of an update: the profile must be among the choices before it
/// is written.
pub open spec fn platform_steps(s: PlatformSettings) -> Seq<Step> {
    seq![
        Step::Check { path: PLATFORM_PROFILE_CHOICES@, word: s.profile@ },
        Step::Write { path: PLATFORM_PROFILE@, chunks: seq![s.profile@.push('\n')] },
    ]
}

/// A run's end, with its failure told as a platform error.
pub open spec fn platform_error(f: StepFailure) -> UpdatePlatformSettingsError {
    match f {
        StepFailure::Io(e) => UpdatePlatformSettingsError::Io(e),
        StepFailure::NotListed => UpdatePlatformSettingsError::InvalidPlatformProfile,
    }
}

pub open spec fn platform_next_of(n: Next<StepFailure>) -> Next<UpdatePlatformSettingsError> {
    match n {
        Next::Perform(r) => Next::Perform(r),
        Next::Finish(Ok(())) => Next::Finish(Ok(())),
        Next::Finish(Err(f)) => Next::Finish(Err(platform_error(f))),
    }
}

/// What comes after the outcomes `h` in an update to `s`.
pub open spec fn platform_next(s: PlatformSettings, h: Seq<Outcome>) -> Next<
    UpdatePlatformSettingsError,
> {
    platform_next_of(next_of(platform_steps(s), h))
}

fn platform_action(a: Action<StepFailure>) -> (r: Action<UpdatePlatformSettingsError>)
    ensures
        r@ == platform_next_of(a@),
{
    match a {
        Action::Write { path, chunks } => Action::Write { path, chunks },
        Action::Read { path } => Action::Read { path },
        Action::Done(Ok(())) => Action::Done(Ok(())),
        Action::Done(Err(StepFailure::Io(e))) => Action::Done(
            Err(UpdatePlatformSettingsError::Io(e)),
        ),
        Action::Done(Err(StepFailure::NotListed)) => Action::Done(
            Err(UpdatePlatformSettingsError::InvalidPlatformProfile),
        ),
    }
}

/// A line for a sysfs file: `data` and a line feed.
pub(crate) fn line_of(data: &str) -> (r: String)
    ensures
        r@ == data@.push('\n'),
{
    let mut r = String::from_str(data);
    push_char(&mut r, '\n');
    r
}

/// An update of the platform profile in progress.
pub struct PlatformUpdate {
    runner: StepRunner,
    settings: Ghost<PlatformSettings>,
}

impl PlatformUpdate {
    /// The settings being applied.
    pub closed spec fn settings(&self) -> PlatformSettings {
        self.settings@
    }

    /// The outcomes handed in so far.
    pub closed spec fn history(&self) -> Seq<Outcome> {
        self.runner.history()
    }

    pub closed spec fn wf(&self) -> bool {
        &&& self.runner.wf()
        &&& self.runner.plan() == platform_steps(self.settings@)
    }

    /// What comes next.
    pub open spec fn next(&self) -> Next<UpdatePlatformSettingsError> {
        platform_next(self.settings(), self.history())
    }

    /// Takes the outcome of the last request and returns what comes next.
    pub fn step(&mut self, out: Outcome) -> (a: Action<UpdatePlatformSettingsError>)
        requires
            old(self).wf(),
            old(self).next() matches Next::Perform(req) && fits(req, out),
        ensures
            final(self).wf(),
            final(self).settings() == old(self).settings(),
            final(self).history() == old(self).history().push(out),
            a@ == final(self).next(),
    {
        let a = self.runner.advance(out);
        platform_action(a)
    }
}

/// Starts an update of the platform profile to `settings`: the profile is
/// checked against the firmware's choices, then written. Returns the update
/// and its first action.
pub fn update_platform_profile(settings: &PlatformSettings) -> (r: (
    PlatformUpdate,
    Action<UpdatePlatformSettingsError>,
))
    ensures
        r.0.wf(),
        r.0.settings() == *settings,
        r.0.history() == Seq::<Outcome>::empty(),
        r.1@ == r.0.next(),
{
    let mut steps: Vec<ExecStep> = Vec::new();
    steps.push(
        ExecStep::Check {
            path: String::from_str(PLATFORM_PROFILE_CHOICES),
            word: settings.profile.clone(),
        },
    );
    let mut chunks: Vec<String> = Vec::new();
    chunks.push(line_of(settings.profile.as_str()));
    assert(chunk_views(chunks@) =~= seq![settings.profile@.push('\n')]);
    steps.push(ExecStep::Write { path: String::from_str(PLATFORM_PROFILE), chunks });
    assert(steps@[0]@ == platform_steps(*settings)[0]);
    assert(steps@[1]@ == platform_steps(*settings)[1]);
    assert(step_views(steps@) =~= platform_steps(*settings));
    let runner = StepRunner::new(steps);
    let a = runner.first();
    let update = PlatformUpdate { runner, settings: Ghost(*settings) };
    (update, platform_action(a))
}

/// The profile is written only when the firmware offers it: whenever the
/// update asks to write the profile, the one outcome before it came from
/// reading the list of choices, and that list holds the profile.
pub proof fn lemma_profile_written_only_if_offered(s: PlatformSettings, h: Seq<Outcome>)
    requires
        platform_next(s, h) matches Next::Perform(Request::Write { .. }),
    ensures
        h.len() == 1,
        platform_next(s, Seq::empty()) == Next::<UpdatePlatformSettingsError>::Perform(
            Request::Read { path: PLATFORM_PROFILE_CHOICES@ },
        ),
        h[0] matches Outcome::Read(Ok(bytes)) && lists_word(bytes@, s.profile@),
{
    let steps = platform_steps(s);
    lemma_run_at(steps, h);
    lemma_checks_before_passed(steps, h, 0);
}

/// Whenever a platform update asks to write, it writes exactly one line to
/// the profile file: the configured profile and a line feed.
pub proof fn lemma_platform_write_is_the_profile(s: PlatformSettings, h: Seq<Outcome>)
    requires
        platform_next(s, h) matches Next::Perform(Request::Write { .. }),
    ensures
        platform_next(s, h) == Next::<UpdatePlatformSettingsError>::Perform(
            Request::Write { path: PLATFORM_PROFILE@, chunks: seq![s.profile@.push('\n')] },
        ),
{
    lemma_next_is_planned(platform_steps(s), h);
}

/// A platform update first reads the firmware's choices. When they list the
/// profile, it writes the profile and a line feed to the profile file, and
/// ends well once that went through. When they do not, it ends with
/// `InvalidPlatformProfile` and writes nothing.
pub proof fn lemma_platform_run(s: PlatformSettings, content: Vec<u8>, written: Outcome)
    requires
        written == Outcome::Written(Ok(())),
    ensures
        platform_next(s, Seq::empty()) == Next::<UpdatePlatformSettingsError>::Perform(
            Request::Read { path: PLATFORM_PROFILE_CHOICES@ },
        ),
        lists_word(content@, s.profile@) ==> platform_next(s, seq![Outcome::Read(Ok(content))])
            == Next::<UpdatePlatformSettingsError>::Perform(
            Request::Write { path: PLATFORM_PROFILE@, chunks: seq![s.profile@.push('\n')] },
        ),
        lists_word(content@, s.profile@) ==> platform_next(
            s,
            seq![Outcome::Read(Ok(content)), written],
        ) == Next::<UpdatePlatformSettingsError>::Finish(Ok(())),
        !lists_word(content@, s.profile@) ==> platform_next(s, seq![Outcome::Read(Ok(content))])
            == Next::<UpdatePlatformSettingsError>::Finish(
            Err(UpdatePlatformSettingsError::InvalidPlatformProfile),
        ),
{
    let r = Outcome::Read(Ok(content));
    assert(seq![r].drop_last() =~= Seq::<Outcome>::empty());
    assert(seq![r, written].drop_last() =~= seq![r]);
}

} // verus!
