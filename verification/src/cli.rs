//! The command line: what its argument asks for, and what a single test prints.

use crate::run::VERSION;
use crate::speedtest::{ResultView, TestResult, Update, UpdateView};
use crate::text::{decimal, digits, lemma_digits_read_back, number, occurs_at, same_text};
use vstd::prelude::*;
use vstd::string::*;

verus! {

/// How the program is used.
pub const HELP: &'static str = "speed 1.0.0 — a playful Fast.com speed test\n\nUSAGE:\n    speed          Open the interactive speed test\n    speed --once   Run once without the interactive UI\n    speed --help   Show this help\n\nKEYS:\n    Space / Enter  Run the test again\n    q / Esc        Quit\n";

/// What the program exits with when it does not know its argument.
pub const UNKNOWN_OPTION_STATUS: i32 = 2;

/// What the program is asked to do.
#[derive(Debug)]
pub enum Command {
    /// Print how it is used.
    Help,
    /// Print its version.
    Version,
    /// Test once and print the result.
    Once,
    /// Open the interactive screen.
    Interactive,
    /// Print this complaint and leave.
    Unknown(String),
}

/// What the program is asked to do, by the characters of its texts.
pub enum CommandView {
    Help,
    Version,
    Once,
    Interactive,
    Unknown(Seq<char>),
}

impl View for Command {
    type V = CommandView;

    open spec fn view(&self) -> CommandView {
        match self {
            Command::Help => CommandView::Help,
            Command::Version => CommandView::Version,
            Command::Once => CommandView::Once,
            Command::Interactive => CommandView::Interactive,
            Command::Unknown(complaint) => CommandView::Unknown(complaint@),
        }
    }
}

/// What the program is asked to do by its first argument, or without one by whether it writes to
/// a terminal.
pub open spec fn command_of(argument: Option<Seq<char>>, terminal: bool) -> CommandView {
    match argument {
        Some(option) => if option == "-h"@ || option == "--help"@ {
            CommandView::Help
        } else if option == "-V"@ || option == "--version"@ {
            CommandView::Version
        } else if option == "--once"@ {
            CommandView::Once
        } else {
            CommandView::Unknown("Unknown option: "@ + option + "\n\n"@ + HELP@)
        },
        None => if terminal {
            CommandView::Interactive
        } else {
            CommandView::Once
        },
    }
}

/// What the program is asked to do by its first argument, or without one by whether it writes to
/// a terminal.
pub fn command(argument: Option<&str>, terminal: bool) -> (r: Command)
    ensures
        r@ == command_of(
            match argument {
                Some(option) => Some(option@),
                None => None,
            },
            terminal,
        ),
{
    match argument {
        Some(option) => {
            if same_text(option, "-h") || same_text(option, "--help") {
                Command::Help
            } else if same_text(option, "-V") || same_text(option, "--version") {
                Command::Version
            } else if same_text(option, "--once") {
                Command::Once
            } else {
                let mut complaint = "Unknown option: ".to_owned();
                complaint.append(option);
                complaint.append("\n\n");
                complaint.append(HELP);
                Command::Unknown(complaint)
            }
        },
        None => {
            if terminal {
                Command::Interactive
            } else {
                Command::Once
            }
        },
    }
}

/// The name of the program and its version.
pub fn version_line() -> (r: String)
    ensures
        r@ == "speed "@ + VERSION@,
{
    let mut r = "speed ".to_owned();
    r.append(VERSION);
    r
}

/// What a single test does with an update.
#[derive(Debug)]
pub enum OnceStep {
    /// Print this on the side and go on.
    Note(&'static str),
    /// Go on.
    Silent,
    /// Print this result and leave.
    Report(TestResult),
    /// Leave with this error.
    Fail(String),
}

/// What a single test does with an update, by the characters of its texts.
pub enum OnceView {
    Note(Seq<char>),
    Silent,
    Report(ResultView),
    Fail(Seq<char>),
}

impl View for OnceStep {
    type V = OnceView;

    open spec fn view(&self) -> OnceView {
        match self {
            OnceStep::Note(note) => OnceView::Note(note@),
            OnceStep::Silent => OnceView::Silent,
            OnceStep::Report(result) => OnceView::Report(result@),
            OnceStep::Fail(error) => OnceView::Fail(error@),
        }
    }
}

/// What a single test does with an update: phases are noted, readings are not, and the result or
/// the failure ends it.
pub open spec fn once_of(update: UpdateView) -> OnceView {
    match update {
        UpdateView::Phase(phase) => OnceView::Note(phase),
        UpdateView::Sample(_) => OnceView::Silent,
        UpdateView::Finished(result) => OnceView::Report(result),
        UpdateView::Failed(error) => OnceView::Fail(error),
    }
}

/// What a single test does with an update.
pub fn once(update: Update) -> (r: OnceStep)
    ensures
        r@ == once_of(update@),
{
    match update {
        Update::Phase(phase) => OnceStep::Note(phase),
        Update::Sample(_) => OnceStep::Silent,
        Update::Finished(result) => OnceStep::Report(result),
        Update::Failed(error) => OnceStep::Fail(error),
    }
}

/// The result in one line. `speed` and `data` are its speed in megabits per second and its data
/// in megabytes, in writing.
pub open spec fn summary_of(result: ResultView, speed: Seq<char>, data: Seq<char>) -> Seq<char> {
    speed + " Mbps  •  "@ + digits(result.latency_ms as nat) + " ms ping  •  "@ + result.server
        + "  •  "@ + data + " MB downloaded"@
}

/// The result in one line. `speed` and `data` are its speed in megabits per second and its data
/// in megabytes, in writing.
pub fn summary(result: &TestResult, speed: &str, data: &str) -> (r: String)
    ensures
        r@ == summary_of(result@, speed@, data@),
{
    let mut r = speed.to_owned();
    r.append(" Mbps  •  ");
    r.append(decimal(result.latency_ms).as_str());
    r.append(" ms ping  •  ");
    r.append(result.server.as_str());
    r.append("  •  ");
    r.append(data);
    r.append(" MB downloaded");
    r
}

/// A single test leaves at the last update of its run, and not before.
pub proof fn lemma_once_ends_with_the_run(update: UpdateView)
    ensures
        once_of(update) is Report || once_of(update) is Fail <==> update.is_last(),
{
}

/// An argument decides alone: whatever it is, a terminal makes no difference. Each option has its
/// own meaning and no other text has it; anything else is answered with a complaint that quotes it
/// and says how the program is used.
pub proof fn lemma_argument_decides(option: Seq<char>, terminal: bool)
    ensures
        command_of(Some(option), true) == command_of(Some(option), false),
        command_of(Some(option), terminal) is Once <==> option == "--once"@,
        command_of(Some(option), terminal) is Help <==> option == "-h"@ || option == "--help"@,
        command_of(Some(option), terminal) is Version <==> option == "-V"@ || option
            == "--version"@,
        !(command_of(Some(option), terminal) is Interactive),
        command_of(Some(option), terminal) matches CommandView::Unknown(complaint) ==> {
            &&& ("Unknown option: "@ + option + "\n\n"@).is_prefix_of(complaint)
            &&& HELP@.is_suffix_of(complaint)
            &&& complaint.len() == 18 + option.len() + HELP@.len()
        },
{
    reveal_strlit("-h");
    reveal_strlit("--help");
    reveal_strlit("-V");
    reveal_strlit("--version");
    reveal_strlit("--once");
    reveal_strlit("Unknown option: ");
    reveal_strlit("\n\n");
    assert("-h"@[1] == 'h' && "-V"@[1] == 'V' && "--help"@[2] == 'h' && "--version"@[2] == 'v'
        && "--once"@[2] == 'o');
    let front = "Unknown option: "@ + option + "\n\n"@;
    let complaint = front + HELP@;
    assert(front =~= complaint.subrange(0, front.len() as int));
    assert(HELP@ =~= complaint.subrange(front.len() as int, complaint.len() as int));
}

/// The interactive screen is opened only without an argument and only on a terminal; without
/// either there is a single test.
pub proof fn lemma_interactive_needs_a_terminal(argument: Option<Seq<char>>, terminal: bool)
    ensures
        command_of(argument, terminal) is Interactive <==> argument is None && terminal,
        argument is None && !terminal ==> command_of(argument, terminal) is Once,
{
    if let Some(option) = argument {
        lemma_argument_decides(option, terminal);
    }
}

/// A single test passes on what it is told, to the letter: phases and the reason of a failure by
/// their text, the result as it is. Readings it keeps to itself.
pub proof fn lemma_once_passes_on(
    text: Seq<char>,
    sample: crate::speedtest::Sample,
    result: ResultView,
)
    ensures
        once_of(UpdateView::Phase(text)) == OnceView::Note(text),
        once_of(UpdateView::Sample(sample)) == OnceView::Silent,
        once_of(UpdateView::Finished(result)) == OnceView::Report(result),
        once_of(UpdateView::Failed(text)) == OnceView::Fail(text),
{
}

/// The line of a result begins with its speed and ends with its data; between them stand the
/// latency, in digits that read back as it, and the server, and nothing else.
pub proof fn lemma_summary(result: ResultView, speed: Seq<char>, data: Seq<char>)
    ensures
        exists|ping: Seq<char>| #[trigger]
            number(ping) == result.latency_ms && (forall|i: int|
                0 <= i < ping.len() ==> '0' <= #[trigger] ping[i] <= '9') && ping.len() > 0 && (
            ping.len() > 1 ==> ping[0] != '0') && summary_of(result, speed, data) == speed
                + " Mbps  •  "@ + ping + " ms ping  •  "@ + result.server + "  •  "@ + data
                + " MB downloaded"@,
{
    lemma_digits_read_back(result.latency_ms as nat);
    assert(number(digits(result.latency_ms as nat)) == result.latency_ms);
}

/// The help names every way to call the program and the keys of the interactive screen.
pub proof fn lemma_help_names_all()
    ensures
        occurs_at(HELP@, "speed          Open the interactive speed test"@, 56),
        occurs_at(HELP@, "speed --once   Run once without the interactive UI"@, 107),
        occurs_at(HELP@, "speed --help   Show this help"@, 162),
        occurs_at(HELP@, "Space / Enter  Run the test again"@, 203),
        occurs_at(HELP@, "q / Esc        Quit"@, 241),
{
    reveal_strlit("speed 1.0.0 — a playful Fast.com speed test\n\nUSAGE:\n    speed          Open the interactive speed test\n    speed --once   Run once without the interactive UI\n    speed --help   Show this help\n\nKEYS:\n    Space / Enter  Run the test again\n    q / Esc        Quit\n");
    reveal_strlit("speed          Open the interactive speed test");
    reveal_strlit("speed --once   Run once without the interactive UI");
    reveal_strlit("speed --help   Show this help");
    reveal_strlit("Space / Enter  Run the test again");
    reveal_strlit("q / Esc        Quit");
    let help = HELP@;
    assert(help.subrange(56, 102) =~= "speed          Open the interactive speed test"@);
    assert(help.subrange(107, 157) =~= "speed --once   Run once without the interactive UI"@);
    assert(help.subrange(162, 191) =~= "speed --help   Show this help"@);
    assert(help.subrange(203, 236) =~= "Space / Enter  Run the test again"@);
    assert(help.subrange(241, 260) =~= "q / Esc        Quit"@);
}

} // verus!
