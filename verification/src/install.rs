//! Helpers of the application installer.
use vstd::prelude::*;

use vstd::string::StringExecFns;

use crate::text::{
    chars_of, decimal, lossy_text, push_char, push_decimal, push_signed_decimal, push_str, signed_decimal,
    string_from, trim_text, trimmed, utf8_lossy, compare_text,
};

verus! {

/// Whether `c` has a special meaning in an extended regular expression.
pub open spec fn is_regex_special(c: char) -> bool {
    c == '.' || c == '+' || c == '*' || c == '?' || c == '(' || c == ')' || c == '|' || c == '['
        || c == ']' || c == '{' || c == '}' || c == '^' || c == '$' || c == '\\'
}

/// `text` with a backslash before every regular-expression special
/// character, so that it matches itself literally.
pub open spec fn regex_escaped(text: Seq<char>) -> Seq<char>
    decreases text.len(),
{
    if text.len() == 0 {
        Seq::empty()
    } else if is_regex_special(text.last()) {
        regex_escaped(text.drop_last()).push('\\').push(text.last())
    } else {
        regex_escaped(text.drop_last()).push(text.last())
    }
}

/// Reads an escaped text back from its end: a special character was written
/// after a backslash, any other character alone.
pub open spec fn regex_unescaped(text: Seq<char>) -> Seq<char>
    decreases text.len(),
{
    if text.len() == 0 {
        Seq::empty()
    } else if is_regex_special(text.last()) && text.len() >= 2 {
        regex_unescaped(text.drop_last().drop_last()).push(text.last())
    } else {
        regex_unescaped(text.drop_last()).push(text.last())
    }
}

/// Escaping loses nothing: reading the escaped text back gives the
/// original, so the pattern stands for the path itself.
pub proof fn regex_escape_is_reversible(text: Seq<char>)
    ensures
        regex_unescaped(regex_escaped(text)) == text,
    decreases text.len(),
{
    if text.len() > 0 {
        let rest = text.drop_last();
        regex_escape_is_reversible(rest);
        let escaped = regex_escaped(text);
        if is_regex_special(text.last()) {
            assert(escaped.drop_last().drop_last() =~= regex_escaped(rest));
        } else {
            assert(escaped.drop_last() =~= regex_escaped(rest));
        }
        assert(rest.push(text.last()) =~= text);
    }
}

fn regex_special(c: char) -> (special: bool)
    ensures
        special == is_regex_special(c),
{
    c == '.' || c == '+' || c == '*' || c == '?' || c == '(' || c == ')' || c == '|' || c == '['
        || c == ']' || c == '{' || c == '}' || c == '^' || c == '$' || c == '\\'
}

/// Escapes a bundle path for use in a `pgrep -f` pattern.
pub fn regex_escape_path(path: &str) -> (escaped: String)
    ensures
        escaped@ == regex_escaped(path@),
{
    let chars = chars_of(path);
    let mut escaped = String::new();
    let mut i: usize = 0;
    while i < chars.len()
        invariant
            chars@ == path@,
            i <= chars@.len(),
            escaped@ == regex_escaped(chars@.subrange(0, i as int)),
        decreases chars@.len() - i,
    {
        let c = chars[i];
        assert(chars@.subrange(0, i + 1).drop_last() =~= chars@.subrange(0, i as int));
        if regex_special(c) {
            push_char(&mut escaped, '\\');
        }
        push_char(&mut escaped, c);
        i += 1;
    }
    assert(chars@.subrange(0, chars@.len() as int) =~= chars@);
    escaped
}

/// What the installer was asked to do.
#[derive(Clone, Copy, Debug, PartialEq, Eq, Structural)]
pub enum InstallCommand {
    /// Build, verify and (unless `dry_run`) install the bundle.
    Install { dry_run: bool },
    /// Show the usage text.
    Help,
}

/// The views of a sequence of arguments.
pub open spec fn argument_views(arguments: Seq<String>) -> Seq<Seq<char>> {
    arguments.map_values(|a: String| a@)
}

/// The installer's reading of its arguments from position `i` on, with
/// `dry_run` set by those before: `--dry-run` asks for a dry run, `-h` or
/// `--help` for the usage text at once, and anything else is refused.
pub open spec fn spec_arguments_from(arguments: Seq<Seq<char>>, i: nat, dry_run: bool) -> Result<
    InstallCommand,
    Seq<char>,
>
    decreases arguments.len() - i,
{
    if i >= arguments.len() {
        Ok(InstallCommand::Install { dry_run })
    } else if arguments[i as int] == "--dry-run"@ {
        spec_arguments_from(arguments, i + 1, true)
    } else if arguments[i as int] == "-h"@ || arguments[i as int] == "--help"@ {
        Ok(InstallCommand::Help)
    } else {
        Err("unknown argument: "@ + arguments[i as int])
    }
}

/// The installer's reading of its command-line arguments (the program name
/// excluded).
pub fn parse_arguments(arguments: &[String]) -> (command: Result<InstallCommand, String>)
    ensures
        match command {
            Ok(c) => spec_arguments_from(argument_views(arguments@), 0, false) == Ok::<
                InstallCommand,
                Seq<char>,
            >(c),
            Err(e) => spec_arguments_from(argument_views(arguments@), 0, false) == Err::<
                InstallCommand,
                Seq<char>,
            >(e@),
        },
{
    let ghost views = argument_views(arguments@);
    let mut dry_run = false;
    let mut i: usize = 0;
    while i < arguments.len()
        invariant
            views == argument_views(arguments@),
            views.len() == arguments@.len(),
            i <= arguments@.len(),
            spec_arguments_from(views, 0, false) == spec_arguments_from(views, i as nat, dry_run),
        decreases arguments@.len() - i,
    {
        let argument = arguments[i].as_str();
        assert(views[i as int] == argument@);
        if compare_text(argument, "--dry-run").1 {
            dry_run = true;
        } else if compare_text(argument, "-h").1 || compare_text(argument, "--help").1 {
            return Ok(InstallCommand::Help);
        } else {
            let mut message = String::from_str("unknown argument: ");
            push_str(&mut message, argument);
            return Err(message);
        }
        i += 1;
    }
    Ok(InstallCommand::Install { dry_run })
}

/// The `pgrep -f` pattern that matches the bundle's executable under
/// `target`, run with or without arguments.
pub open spec fn spec_process_pattern(target: Seq<char>) -> Seq<char> {
    "^"@ + regex_escaped(target) + "/Contents/MacOS/rasitop($| )"@
}

/// The process pattern of the bundle installed at `target`.
pub fn process_pattern(target: &str) -> (pattern: String)
    ensures
        pattern@ == spec_process_pattern(target@),
{
    let mut pattern = String::from_str("^");
    let escaped = regex_escape_path(target);
    push_str(&mut pattern, escaped.as_str());
    push_str(&mut pattern, "/Contents/MacOS/rasitop($| )");
    pattern
}

/// What `pgrep` exiting with `code` says: 0 means a process matched, 1 that
/// none did; any other code, or none (a signal), is a failure.
pub fn pgrep_found(code: Option<i32>) -> (found: Option<bool>)
    ensures
        found == match code {
            Some(0) => Some(true),
            Some(1) => Some(false),
            _ => None::<bool>,
        },
{
    match code {
        Some(0) => Some(true),
        Some(1) => Some(false),
        _ => None,
    }
}

/// How a finished command is described: its exit code, or that a signal
/// ended it.
pub open spec fn spec_status_text(code: Option<i32>) -> Seq<char> {
    match code {
        Some(c) => "exited with status "@ + signed_decimal(c as int),
        None => "terminated by signal"@,
    }
}

/// The description of a finished command's status.
pub fn status_text(code: Option<i32>) -> (text: String)
    ensures
        text@ == spec_status_text(code),
{
    match code {
        Some(c) => {
            let mut text = String::from_str("exited with status ");
            push_signed_decimal(&mut text, c as i64);
            text
        },
        None => String::from_str("terminated by signal"),
    }
}

/// The failure of a command run for `context`: its status, then what it
/// wrote to standard error (decoded lossily and trimmed) when that is not
/// blank.
pub open spec fn spec_command_error(context: Seq<char>, code: Option<i32>, stderr: Seq<u8>) -> Seq<char> {
    let said = trimmed(utf8_lossy(stderr));
    context + ": "@ + spec_status_text(code) + if said.len() == 0 {
        Seq::<char>::empty()
    } else {
        ": "@ + said
    }
}

/// Describes a failed command from its exit code and standard error.
pub fn command_error(context: &str, code: Option<i32>, stderr: &[u8]) -> (text: String)
    ensures
        text@ == spec_command_error(context@, code, stderr@),
{
    let mut text = String::from_str(context);
    push_str(&mut text, ": ");
    let status = status_text(code);
    push_str(&mut text, status.as_str());
    let decoded = lossy_text(stderr);
    let said = trim_text(decoded.as_str());
    if said.len() > 0 {
        push_str(&mut text, ": ");
        let said_text = string_from(said.as_slice());
        push_str(&mut text, said_text.as_str());
    }
    text
}

/// Name of the bundle being staged by the installer process `nonce`.
pub open spec fn spec_staged_name(nonce: u32) -> Seq<char> {
    ".rasitop.app.installing-"@ + decimal(nonce as nat)
}

/// Name the installed bundle is moved to while `nonce` installs.
pub open spec fn spec_backup_name(nonce: u32) -> Seq<char> {
    ".rasitop.app.previous-"@ + decimal(nonce as nat)
}

/// The staging name for installer process `nonce`.
pub fn staged_name(nonce: u32) -> (name: String)
    ensures
        name@ == spec_staged_name(nonce),
{
    let mut name = String::from_str(".rasitop.app.installing-");
    push_decimal(&mut name, nonce as u64);
    name
}

/// The backup name for installer process `nonce`.
pub fn backup_name(nonce: u32) -> (name: String)
    ensures
        name@ == spec_backup_name(nonce),
{
    let mut name = String::from_str(".rasitop.app.previous-");
    push_decimal(&mut name, nonce as u64);
    name
}

/// The failure of moving the staged bundle into place at `target`, with the
/// failure to restore the previous bundle when that also failed.
pub open spec fn spec_install_failure(target: Seq<char>, error: Seq<char>, rollback: Option<Seq<char>>) -> Seq<char> {
    "install "@ + target + ": "@ + error + match rollback {
        Some(r) => "; rollback failed: "@ + r,
        None => Seq::<char>::empty(),
    }
}

/// Describes a failed installation and, when it failed too, the rollback.
pub fn install_failure(target: &str, error: &str, rollback: Option<&str>) -> (text: String)
    ensures
        text@ == spec_install_failure(
            target@,
            error@,
            match rollback {
                Some(r) => Some(r@),
                None => None,
            },
        ),
{
    let mut text = String::from_str("install ");
    push_str(&mut text, target);
    push_str(&mut text, ": ");
    push_str(&mut text, error);
    if let Some(r) = rollback {
        push_str(&mut text, "; rollback failed: ");
        push_str(&mut text, r);
    }
    text
}

} // verus!
