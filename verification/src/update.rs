//! The decisions of the self-update flow: whether a check may start, and
//! what the user is told once it ends. The app runs the check itself and
//! shows the dialogs.

use vstd::prelude::*;

use crate::text::concat;

verus! {

/// The text shown once `version` is installed.
pub open spec fn installed_message(version: Seq<char>) -> Seq<char> {
    "Riffle "@ + version + " was installed and will be used the next time Riffle launches."@
}

/// The text shown once `version` is installed.
pub fn installed_text(version: &str) -> (r: String)
    ensures
        r@ == installed_message(version@),
{
    let head = concat("Riffle ", version);
    concat(head.as_str(), " was installed and will be used the next time Riffle launches.")
}

/// The kind of a native dialog.
#[derive(Clone, Copy, Debug, PartialEq, Eq, Structural)]
pub enum DialogKind {
    Info,
    Error,
}

/// A dialog to show: its text and kind.
#[derive(Debug, PartialEq, Eq)]
pub struct Dialog {
    pub text: String,
    pub kind: DialogKind,
}

/// What `begin` decided.
#[derive(Debug, PartialEq, Eq)]
pub enum Begin {
    /// Run the check and install, then call `finish`.
    Check,
    /// Do nothing more; show the dialog, if any.
    Done(Option<Dialog>),
}

/// Guards against a startup check and a menu click running the updater at
/// once, and remembers the version installed by this process: the updater
/// compares against the running binary, so a later check would otherwise
/// download the same update again.
#[derive(Debug, PartialEq, Eq)]
pub struct UpdateRun {
    running: bool,
    installed: Option<String>,
}

/// The message shown when a check is asked for while one runs.
pub open spec fn busy_message() -> Seq<char> {
    "An update check is already running."@
}

/// The message shown when no update is available.
pub open spec fn up_to_date_message() -> Seq<char> {
    "Riffle is up to date."@
}

/// The message shown when the check or the install failed with `e`.
pub open spec fn failed_message(e: Seq<char>) -> Seq<char> {
    "Update failed: "@ + e
}

/// The view of an optional dialog: its text and kind.
pub open spec fn dialog_view(d: Option<Dialog>) -> Option<(Seq<char>, DialogKind)> {
    match d {
        Some(d) => Some((d.text@, d.kind)),
        None => None,
    }
}

/// The state of the flow in the abstract: whether a check runs, and the
/// version this process installed.
pub type RunModel = (bool, Option<Seq<char>>);

/// What `begin` decides in state `s`: `None` to run the check, else the
/// dialog to show instead (none when not `interactive`).
pub open spec fn begin_outcome(s: RunModel, interactive: bool) -> Option<
    Option<(Seq<char>, DialogKind)>,
> {
    match s.1 {
        Some(v) => Some(
            if interactive {
                Some((installed_message(v), DialogKind::Info))
            } else {
                None
            },
        ),
        None => if s.0 {
            Some(
                if interactive {
                    Some((busy_message(), DialogKind::Info))
                } else {
                    None
                },
            )
        } else {
            None
        },
    }
}

/// The state after `begin` in state `s`.
pub open spec fn after_begin(s: RunModel) -> RunModel {
    match s.1 {
        Some(_) => s,
        None => (true, None),
    }
}

/// The state after a check in state `s` ended with `result`.
pub open spec fn after_finish(s: RunModel, result: Result<Option<Seq<char>>, Seq<char>>) -> RunModel {
    (
        false,
        match result {
            Ok(Some(v)) => Some(v),
            _ => s.1,
        },
    )
}

/// The dialog `finish` shows for `result`, when `interactive`.
pub open spec fn finish_dialog(result: Result<Option<Seq<char>>, Seq<char>>, interactive: bool) -> Option<
    (Seq<char>, DialogKind),
> {
    if interactive {
        Some(
            match result {
                Ok(None) => (up_to_date_message(), DialogKind::Info),
                Ok(Some(v)) => (installed_message(v), DialogKind::Info),
                Err(e) => (failed_message(e), DialogKind::Error),
            },
        )
    } else {
        None
    }
}

/// The view of a check's result.
pub open spec fn result_view(result: Result<Option<String>, String>) -> Result<
    Option<Seq<char>>,
    Seq<char>,
> {
    match result {
        Ok(Some(v)) => Ok(Some(v@)),
        Ok(None) => Ok(None),
        Err(e) => Err(e@),
    }
}

/// The view of what `begin` decided.
pub open spec fn begin_view(b: Begin) -> Option<Option<(Seq<char>, DialogKind)>> {
    match b {
        Begin::Check => None,
        Begin::Done(d) => Some(dialog_view(d)),
    }
}

impl UpdateRun {
    /// The flow's state in the abstract.
    pub closed spec fn model(&self) -> RunModel {
        (
            self.running,
            match self.installed {
                Some(v) => Some(v@),
                None => None,
            },
        )
    }

    /// No check running, nothing installed yet.
    pub fn new() -> (r: UpdateRun)
        ensures
            r.model() == (false, None::<Seq<char>>),
    {
        UpdateRun { running: false, installed: None }
    }

    /// Whether an update flow may run now. Once a version is installed it is
    /// only reported (in a dialog when `interactive`); while a check runs, a
    /// second one is refused the same way; otherwise the check starts and
    /// counts as running.
    pub fn begin(&mut self, interactive: bool) -> (r: Begin)
        ensures
            begin_view(r) == begin_outcome(old(self).model(), interactive),
            final(self).model() == after_begin(old(self).model()),
    {
        if let Some(version) = &self.installed {
            let dialog = if interactive {
                Some(Dialog { text: installed_text(version.as_str()), kind: DialogKind::Info })
            } else {
                None
            };
            return Begin::Done(dialog);
        }
        if self.running {
            let dialog = if interactive {
                Some(
                    Dialog {
                        text: "An update check is already running.".to_string(),
                        kind: DialogKind::Info,
                    },
                )
            } else {
                None
            };
            return Begin::Done(dialog);
        }
        self.running = true;
        Begin::Check
    }

    /// The check ended with `result`: the version installed, `None` when
    /// Riffle was up to date, or the error. The check no longer runs, an
    /// installed version is remembered, and the outcome is told in a dialog
    /// when `interactive`.
    pub fn finish(&mut self, result: Result<Option<String>, String>, interactive: bool) -> (r:
        Option<Dialog>)
        ensures
            final(self).model() == after_finish(old(self).model(), result_view(result)),
            dialog_view(r) == finish_dialog(result_view(result), interactive),
    {
        self.running = false;
        match result {
            Ok(None) => if interactive {
                Some(Dialog { text: "Riffle is up to date.".to_string(), kind: DialogKind::Info })
            } else {
                None
            },
            Ok(Some(version)) => {
                let dialog = if interactive {
                    Some(Dialog { text: installed_text(version.as_str()), kind: DialogKind::Info })
                } else {
                    None
                };
                self.installed = Some(version);
                dialog
            },
            Err(e) => if interactive {
                Some(Dialog { text: concat("Update failed: ", e.as_str()), kind: DialogKind::Error })
            } else {
                None
            },
        }
    }
}

/// Two update checks never run at once: while one that `begin` started
/// runs, another `begin` is refused.
pub proof fn law_one_check_at_a_time(s: RunModel, interactive: bool)
    requires
        begin_outcome(s, interactive) is None,
    ensures
        begin_outcome(after_begin(s), interactive) is Some,
{
}

/// A version a check installed is never downloaded again: every later flow
/// only reports it.
pub proof fn law_an_installed_version_is_not_checked_again(
    s: RunModel,
    version: Seq<char>,
    interactive: bool,
)
    ensures
        begin_outcome(after_finish(s, Ok(Some(version))), interactive) == Some(
            if interactive {
                Some((installed_message(version), DialogKind::Info))
            } else {
                None
            },
        ),
        after_begin(after_finish(s, Ok(Some(version)))) == after_finish(s, Ok(Some(version))),
{
}

/// A check that ends frees the flow: unless a version was installed, the
/// next `begin` starts a check again.
pub proof fn law_a_finished_check_frees_the_flow(
    s: RunModel,
    result: Result<Option<Seq<char>>, Seq<char>>,
    interactive: bool,
)
    requires
        s.1 is None,
        !(result matches Ok(Some(_))),
    ensures
        begin_outcome(after_finish(s, result), interactive) is None,
{
}

} // verus!
