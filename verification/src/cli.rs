use vstd::prelude::*;
use vstd::string::StringExecFns;

verus! {

/// What the user asks the program to show.
#[derive(Clone, Copy, Debug, PartialEq, Eq, Structural)]
pub enum Command {
    Print,
    Balance,
    Register,
    Accounts,
    Codes,
}

/// How the user wants it shown.
#[derive(Clone, Copy, Debug, PartialEq, Eq, Structural)]
pub enum Argument {
    Flat,
    Tree,
    Raw,
    Explicit,
}

/// A report that the program can show.
#[derive(Clone, Copy, Debug, PartialEq, Eq, Structural)]
pub enum Report {
    BalanceFlat,
    BalanceTree,
    Register,
    PrintExplicit,
    PrintRaw,
    AccountsFlat,
    AccountsTree,
    Codes,
}

/// What the words of a command line ask for.
pub struct Invocation {
    pub files: Seq<Seq<char>>,
    pub command: Option<Command>,
    pub arguments: Seq<Argument>,
}

/// The files to read and the report to show of them.
#[derive(Clone, Debug)]
pub struct Plan {
    pub files: Vec<String>,
    pub report: Report,
}

/// The complaint about a `--file` without a path.
pub open spec fn no_path_text() -> Seq<char> {
    "Error : No argument provided for --file"@
}

/// The complaint about a command line without a command.
pub open spec fn no_command_text() -> Seq<char> {
    "Error : No command selected"@
}

/// The complaint about a command line without a file.
pub open spec fn no_file_text() -> Seq<char> {
    "Error : No file(s) selected. Try --file <file> to select a file"@
}

/// The word announces a file.
pub open spec fn is_file_flag(word: Seq<char>) -> bool {
    word == "--file"@ || word == "-f"@
}

/// `so_far` after one word that is no file flag: a flag adds an argument, a
/// command replaces the command, any other word is passed over.
pub open spec fn with_word(so_far: Invocation, word: Seq<char>) -> Invocation {
    if word == "--flat"@ {
        Invocation { arguments: so_far.arguments.push(Argument::Flat), ..so_far }
    } else if word == "--tree"@ {
        Invocation { arguments: so_far.arguments.push(Argument::Tree), ..so_far }
    } else if word == "--raw"@ {
        Invocation { arguments: so_far.arguments.push(Argument::Raw), ..so_far }
    } else if word == "--explicit"@ || word == "-x"@ {
        Invocation { arguments: so_far.arguments.push(Argument::Explicit), ..so_far }
    } else if word == "balance"@ || word == "bal"@ {
        Invocation { command: Some(Command::Balance), ..so_far }
    } else if word == "register"@ || word == "reg"@ {
        Invocation { command: Some(Command::Register), ..so_far }
    } else if word == "print"@ {
        Invocation { command: Some(Command::Print), ..so_far }
    } else if word == "accounts"@ {
        Invocation { command: Some(Command::Accounts), ..so_far }
    } else if word == "codes"@ {
        Invocation { command: Some(Command::Codes), ..so_far }
    } else {
        so_far
    }
}

/// What reading the words of a command line came to.
pub struct Reading {
    /// What the words read ask for.
    pub asked: Invocation,
    /// Whether every word was read: a file flag as the last word ends the
    /// reading before its time.
    pub complete: bool,
}

/// `so_far` after the words from position `i` on: a file flag takes the next
/// word as a path, and ends the reading where there is none.
pub open spec fn read_words(words: Seq<Seq<char>>, i: int, so_far: Invocation) -> Reading
    decreases words.len() - i,
{
    if i < 0 || i >= words.len() {
        Reading { asked: so_far, complete: true }
    } else if is_file_flag(words[i]) {
        if i + 1 >= words.len() {
            Reading { asked: so_far, complete: false }
        } else {
            read_words(words, i + 2, Invocation { files: so_far.files.push(words[i + 1]), ..so_far })
        }
    } else {
        read_words(words, i + 1, with_word(so_far, words[i]))
    }
}

/// The report that a command and the arguments select: the flat form where
/// it is asked for, the explicit print before the raw one, and the tree and
/// the raw print where nothing is asked for.
pub open spec fn report_for(command: Command, arguments: Seq<Argument>) -> Report {
    match command {
        Command::Balance => if arguments.contains(Argument::Flat) {
            Report::BalanceFlat
        } else {
            Report::BalanceTree
        },
        Command::Register => Report::Register,
        Command::Print => if arguments.contains(Argument::Explicit) {
            Report::PrintExplicit
        } else {
            Report::PrintRaw
        },
        Command::Accounts => if arguments.contains(Argument::Flat) {
            Report::AccountsFlat
        } else {
            Report::AccountsTree
        },
        Command::Codes => Report::Codes,
    }
}

/// The files and the report that the words of a command line ask for, or the
/// complaint: about a file flag without a path, then about a missing
/// command, then about missing files.
pub open spec fn planned(words: Seq<Seq<char>>) -> Result<(Seq<Seq<char>>, Report), Seq<char>> {
    let reading = read_words(
        words,
        0,
        Invocation { files: Seq::empty(), command: None, arguments: Seq::empty() },
    );
    if !reading.complete {
        Err(no_path_text())
    } else {
        match reading.asked.command {
            None => Err(no_command_text()),
            Some(command) => if reading.asked.files.len() == 0 {
                Err(no_file_text())
            } else {
                Ok((reading.asked.files, report_for(command, reading.asked.arguments)))
            },
        }
    }
}

/// Whether `word` is spelled `spelling`.
fn is_word(word: &String, spelling: &str) -> (r: bool)
    ensures
        r == (word@ == spelling@),
{
    *word == String::from_str(spelling)
}

/// Whether `argument` is among `arguments`.
fn has_argument(arguments: &Vec<Argument>, argument: Argument) -> (r: bool)
    ensures
        r == arguments@.contains(argument),
{
    let mut i: usize = 0;
    while i < arguments.len()
        invariant
            i <= arguments.len(),
            forall|k: int| 0 <= k < i ==> arguments[k] != argument,
        decreases arguments.len() - i,
    {
        if arguments[i] == argument {
            return true;
        }
        i += 1;
    }
    false
}

/// Reads the words of a command line, the program's name left out, into
/// `files`, `command` and `arguments`.
///
/// A file flag takes the next word as a path; a flag adds an argument; a
/// command replaces the command; any other word is passed over. A file flag
/// as the last word is an error, and what was read before it stays.
pub fn parse_arguments(
    words: &Vec<String>,
    files: &mut Vec<String>,
    command: &mut Option<Command>,
    arguments: &mut Vec<Argument>,
) -> (r: Result<(), String>)
    ensures
        ({
            let reading = read_words(
                words.deep_view(),
                0,
                Invocation {
                    files: old(files).deep_view(),
                    command: *old(command),
                    arguments: old(arguments)@,
                },
            );
            &&& final(files).deep_view() == reading.asked.files
            &&& *final(command) == reading.asked.command
            &&& final(arguments)@ == reading.asked.arguments
            &&& r is Ok <==> reading.complete
            &&& r matches Err(e) ==> e@ == no_path_text()
        }),
{
    let ghost all = words.deep_view();
    let ghost begun = Invocation {
        files: old(files).deep_view(),
        command: *old(command),
        arguments: old(arguments)@,
    };
    let mut i: usize = 0;
    while i < words.len()
        invariant
            i <= words.len(),
            all == words.deep_view(),
            begun == (Invocation {
                files: old(files).deep_view(),
                command: *old(command),
                arguments: old(arguments)@,
            }),
            read_words(all, 0, begun) == read_words(
                all,
                i as int,
                Invocation { files: files.deep_view(), command: *command, arguments: arguments@ },
            ),
        decreases words.len() - i,
    {
        let word = &words[i];
        let ghost so_far = Invocation {
            files: files.deep_view(),
            command: *command,
            arguments: arguments@,
        };
        assert(all[i as int] == word@);
        if is_word(word, "--file") || is_word(word, "-f") {
            if i + 1 >= words.len() {
                return Err(String::from_str("Error : No argument provided for --file"));
            }
            let ghost before = files.deep_view();
            files.push(words[i + 1].clone());
            assert(files.deep_view() =~= before.push(all[i + 1]));
            i += 2;
        } else {
            if is_word(word, "--flat") {
                arguments.push(Argument::Flat);
            } else if is_word(word, "--tree") {
                arguments.push(Argument::Tree);
            } else if is_word(word, "--raw") {
                arguments.push(Argument::Raw);
            } else if is_word(word, "--explicit") || is_word(word, "-x") {
                arguments.push(Argument::Explicit);
            } else if is_word(word, "balance") || is_word(word, "bal") {
                *command = Some(Command::Balance);
            } else if is_word(word, "register") || is_word(word, "reg") {
                *command = Some(Command::Register);
            } else if is_word(word, "print") {
                *command = Some(Command::Print);
            } else if is_word(word, "accounts") {
                *command = Some(Command::Accounts);
            } else if is_word(word, "codes") {
                *command = Some(Command::Codes);
            }
            assert(Invocation { files: files.deep_view(), command: *command, arguments: arguments@ }
                == with_word(so_far, word@));
            i += 1;
        }
    }
    Ok(())
}

/// The report that `command` and `arguments` select.
pub fn execute_command(command: Command, arguments: &Vec<Argument>) -> (r: Report)
    ensures
        r == report_for(command, arguments@),
{
    match command {
        Command::Balance => {
            if has_argument(arguments, Argument::Flat) {
                return Report::BalanceFlat;
            }
            if has_argument(arguments, Argument::Tree) {
                return Report::BalanceTree;
            }
            Report::BalanceTree
        },
        Command::Register => Report::Register,
        Command::Print => {
            if has_argument(arguments, Argument::Explicit) {
                return Report::PrintExplicit;
            }
            if has_argument(arguments, Argument::Raw) {
                return Report::PrintRaw;
            }
            Report::PrintRaw
        },
        Command::Accounts => {
            if has_argument(arguments, Argument::Flat) {
                return Report::AccountsFlat;
            }
            if has_argument(arguments, Argument::Tree) {
                return Report::AccountsTree;
            }
            Report::AccountsTree
        },
        Command::Codes => Report::Codes,
    }
}

/// The files to read and the report to show for the words of a command line,
/// the program's name left out; or the complaint to make.
pub fn start(words: &Vec<String>) -> (r: Result<Plan, String>)
    ensures
        match planned(words.deep_view()) {
            Ok((files, report)) => r is Ok && r->Ok_0.files.deep_view() == files && r->Ok_0.report
                == report,
            Err(e) => r is Err && r->Err_0@ == e,
        },
{
    let mut files: Vec<String> = Vec::new();
    let mut command: Option<Command> = None;
    let mut arguments: Vec<Argument> = Vec::new();
    assert(files.deep_view() =~= Seq::empty());
    match parse_arguments(words, &mut files, &mut command, &mut arguments) {
        Err(e) => {
            return Err(e);
        },
        Ok(()) => {},
    }
    match command {
        None => Err(String::from_str("Error : No command selected")),
        Some(command) => {
            if files.len() == 0 {
                return Err(
                    String::from_str(
                        "Error : No file(s) selected. Try --file <file> to select a file",
                    ),
                );
            }
            let report = execute_command(command, &arguments);
            Ok(Plan { files, report })
        },
    }
}

} // verus!
