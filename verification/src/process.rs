//! Whether the editor is running, and how it is stopped: the commands to
//! run and what their outcomes mean.

use vstd::prelude::*;
use vstd::string::StringSliceAdditionalSpecFns;
use crate::cleanup::{find_subsequence, matches_at};
use crate::paths::TargetFamily;
use crate::text::to_owned_text;

verus! {

/// A program to start and its arguments.
pub struct ProcessCommand {
    pub program: String,
    pub arguments: Vec<String>,
}

pub open spec fn command_view(command: ProcessCommand) -> (Seq<char>, Seq<Seq<char>>) {
    (command.program@, command.arguments@.map_values(|a: String| a@))
}

pub open spec fn commands_view(commands: Seq<ProcessCommand>) -> Seq<(Seq<char>, Seq<Seq<char>>)> {
    commands.map_values(|c: ProcessCommand| command_view(c))
}

fn command(program: &str, arguments: Vec<&str>) -> (made: ProcessCommand)
    ensures
        made.program@ == program@,
        made.arguments@.len() == arguments@.len(),
        forall|i: int| 0 <= i < arguments@.len() ==> #[trigger] made.arguments@[i]@ == arguments@[i]@,
{
    let mut owned: Vec<String> = Vec::new();
    let mut i: usize = 0;
    while i < arguments.len()
        invariant
            i <= arguments@.len(),
            owned@.len() == i,
            forall|k: int| 0 <= k < i ==> #[trigger] owned@[k]@ == arguments@[k]@,
        decreases arguments@.len() - i,
    {
        owned.push(to_owned_text(arguments[i]));
        i += 1;
    }
    ProcessCommand { program: to_owned_text(program), arguments: owned }
}

/// The commands that stop the editor: `taskkill` of its process tree on
/// Windows; `pkill` of each of its process names elsewhere.
pub open spec fn spec_force_quit_commands(family: TargetFamily) -> Seq<(Seq<char>, Seq<Seq<char>>)> {
    match family {
        TargetFamily::Windows => seq![("taskkill"@, seq!["/F"@, "/IM"@, "Cursor.exe"@, "/T"@])],
        TargetFamily::Unix => seq![("pkill"@, seq!["-x"@, "Cursor"@]), ("pkill"@, seq!["-x"@, "cursor"@])],
    }
}

/// The commands that stop the editor.
pub fn force_quit_commands(family: TargetFamily) -> (commands: Vec<ProcessCommand>)
    ensures
        commands_view(commands@) == spec_force_quit_commands(family),
{
    match family {
        TargetFamily::Windows => {
            let commands = vec![command("taskkill", vec!["/F", "/IM", "Cursor.exe", "/T"])];
            assert(commands_view(commands@)[0].1 =~= seq!["/F"@, "/IM"@, "Cursor.exe"@, "/T"@]);
            assert(commands_view(commands@) =~= spec_force_quit_commands(family));
            commands
        },
        TargetFamily::Unix => {
            let commands = vec![command("pkill", vec!["-x", "Cursor"]), command("pkill", vec!["-x", "cursor"])];
            assert(commands_view(commands@)[0].1 =~= seq!["-x"@, "Cursor"@]);
            assert(commands_view(commands@)[1].1 =~= seq!["-x"@, "cursor"@]);
            assert(commands_view(commands@) =~= spec_force_quit_commands(family));
            commands
        },
    }
}

/// The outcome of stopping the editor, from why each command could not be
/// started (`None` when it started): on Windows a `taskkill` that could not
/// start is an error; elsewhere `pkill` failures are ignored.
pub open spec fn spec_force_quit_outcome(family: TargetFamily, start_errors: Seq<Option<Seq<char>>>) -> Result<(), Seq<char>> {
    match family {
        TargetFamily::Windows => if start_errors.len() > 0 && start_errors[0] is Some {
            Err("could not run taskkill: "@ + start_errors[0]->0)
        } else {
            Ok(())
        },
        TargetFamily::Unix => Ok(()),
    }
}

pub open spec fn errors_view(errors: Seq<Option<String>>) -> Seq<Option<Seq<char>>> {
    errors.map_values(|e: Option<String>| match e {
        Some(t) => Some(t@),
        None => None,
    })
}

/// Stops the editor: the outcome of running `force_quit_commands`.
pub fn force_quit_cursor(family: TargetFamily, start_errors: &Vec<Option<String>>) -> (outcome: Result<(), String>)
    ensures
        match spec_force_quit_outcome(family, errors_view(start_errors@)) {
            Ok(()) => outcome is Ok,
            Err(message) => outcome matches Err(found) && found@ == message,
        },
{
    match family {
        TargetFamily::Windows => {
            if start_errors.len() > 0 {
                match &start_errors[0] {
                    Some(error) => {
                        let mut message = to_owned_text("could not run taskkill: ");
                        message.append(error.as_str());
                        return Err(message);
                    },
                    None => {},
                }
            }
            Ok(())
        },
        TargetFamily::Unix => Ok(()),
    }
}

/// The commands that look for the editor: `tasklist` filtered on its image
/// on Windows; `pgrep` of each of its process names elsewhere.
pub open spec fn spec_probe_commands(family: TargetFamily) -> Seq<(Seq<char>, Seq<Seq<char>>)> {
    match family {
        TargetFamily::Windows => seq![("tasklist"@, seq!["/FI"@, "IMAGENAME eq Cursor.exe"@, "/NH"@])],
        TargetFamily::Unix => seq![("pgrep"@, seq!["-x"@, "Cursor"@]), ("pgrep"@, seq!["-x"@, "cursor"@])],
    }
}

/// The commands that look for the editor.
pub fn probe_commands(family: TargetFamily) -> (commands: Vec<ProcessCommand>)
    ensures
        commands_view(commands@) == spec_probe_commands(family),
{
    match family {
        TargetFamily::Windows => {
            let commands = vec![command("tasklist", vec!["/FI", "IMAGENAME eq Cursor.exe", "/NH"])];
            assert(commands_view(commands@)[0].1 =~= seq!["/FI"@, "IMAGENAME eq Cursor.exe"@, "/NH"@]);
            assert(commands_view(commands@) =~= spec_probe_commands(family));
            commands
        },
        TargetFamily::Unix => {
            let commands = vec![command("pgrep", vec!["-x", "Cursor"]), command("pgrep", vec!["-x", "cursor"])];
            assert(commands_view(commands@)[0].1 =~= seq!["-x"@, "Cursor"@]);
            assert(commands_view(commands@)[1].1 =~= seq!["-x"@, "cursor"@]);
            assert(commands_view(commands@) =~= spec_probe_commands(family));
            commands
        },
    }
}

/// What a finished command reported.
pub struct ProbeOutcome {
    pub succeeded: bool,
    pub output: Vec<u8>,
}

pub open spec fn occurs_in(haystack: Seq<u8>, needle: Seq<u8>) -> bool {
    exists|start: int| matches_at(haystack, needle, start)
}

/// Whether the editor runs, from the outcomes of `probe_commands` (`None`
/// for a command that could not start): on Windows, when the listing names
/// its image; elsewhere, when some `pgrep` succeeded with output.
pub open spec fn spec_cursor_running(family: TargetFamily, outcomes: Seq<Option<ProbeOutcome>>) -> bool {
    match family {
        TargetFamily::Windows => outcomes.len() > 0 && match outcomes[0] {
            Some(o) => occurs_in(o.output@, "Cursor.exe".spec_bytes()),
            None => false,
        },
        TargetFamily::Unix => exists|i: int| 0 <= i < outcomes.len() && #[trigger] reports_process(outcomes[i]),
    }
}

/// A `pgrep` that succeeded with output.
pub open spec fn reports_process(outcome: Option<ProbeOutcome>) -> bool {
    match outcome {
        Some(o) => o.succeeded && o.output@.len() > 0,
        None => false,
    }
}

/// Whether the editor runs.
pub fn is_cursor_running(family: TargetFamily, outcomes: &Vec<Option<ProbeOutcome>>) -> (running: bool)
    ensures
        running == spec_cursor_running(family, outcomes@),
{
    match family {
        TargetFamily::Windows => {
            if outcomes.len() == 0 {
                return false;
            }
            match &outcomes[0] {
                Some(o) => {
                    let image = "Cursor.exe".as_bytes();
                    proof {
                        reveal_strlit("Cursor.exe");
                    }
                    match find_subsequence(o.output.as_slice(), image) {
                        Some(start) => true,
                        None => false,
                    }
                },
                None => false,
            }
        },
        TargetFamily::Unix => {
            let mut i: usize = 0;
            while i < outcomes.len()
                invariant
                    family == TargetFamily::Unix,
                    i <= outcomes@.len(),
                    forall|k: int| 0 <= k < i ==> !#[trigger] reports_process(outcomes@[k]),
                decreases outcomes@.len() - i,
            {
                match &outcomes[i] {
                    Some(o) => {
                        if o.succeeded && o.output.len() > 0 {
                            assert(reports_process(outcomes@[i as int]));
                            return true;
                        }
                    },
                    None => {},
                }
                i += 1;
            }
            false
        },
    }
}

/// On Unix the editor counts as running exactly when some probe, wherever
/// it stands among the outcomes, succeeded and printed something; on
/// Windows, exactly when the first listing names `Cursor.exe`.
pub proof fn law_any_probe_that_finds_the_editor_counts(outcomes: Seq<Option<ProbeOutcome>>)
    ensures
        spec_cursor_running(TargetFamily::Unix, outcomes) <==> exists|i: int|
            0 <= i < outcomes.len() && (#[trigger] outcomes[i] matches Some(o) && o.succeeded && o.output@.len() > 0),
        spec_cursor_running(TargetFamily::Windows, outcomes) <==> (outcomes.len() > 0 && match outcomes[0] {
            Some(o) => exists|start: int| #[trigger] matches_at(o.output@, "Cursor.exe".spec_bytes(), start),
            None => false,
        }),
{
    reveal_strlit("Cursor.exe");
    if spec_cursor_running(TargetFamily::Unix, outcomes) {
        let i = choose|i: int| 0 <= i < outcomes.len() && #[trigger] reports_process(outcomes[i]);
        assert(outcomes[i] matches Some(o) && o.succeeded && o.output@.len() > 0);
    }
    if exists|i: int| 0 <= i < outcomes.len() && (#[trigger] outcomes[i] matches Some(o) && o.succeeded
        && o.output@.len() > 0) {
        let i = choose|i: int| 0 <= i < outcomes.len() && (#[trigger] outcomes[i] matches Some(o) && o.succeeded
            && o.output@.len() > 0);
        assert(reports_process(outcomes[i]));
    }
}

} // verus!
