//! Arguments of the commands that the tools run, and what they print about
//! processes and paths.
use vstd::prelude::*;
use vstd::string::*;
use crate::config::{list_chars, opt_chars, opt_list_chars, FlutterCreateConfig};
use crate::lines::chars_equal;
use crate::report::{decimal, decimal_string};
use crate::strings::{chars_of, has_prefix, string_of};

verus! {

/// The items with `sep` between them.
pub open spec fn joined(items: Seq<Seq<char>>, sep: Seq<char>) -> Seq<char>
    decreases items.len(),
{
    if items.len() == 0 {
        Seq::empty()
    } else if items.len() == 1 {
        items[0]
    } else {
        joined(items.drop_last(), sep) + sep + items.last()
    }
}

/// The items with `sep` between them.
pub fn join(items: &Vec<String>, sep: &str) -> (out: String)
    ensures
        out@ == joined(list_chars(items@), sep@),
{
    let ghost all = list_chars(items@);
    let mut out = String::new();
    let mut i: usize = 0;
    proof {
        assert(all.take(0) =~= Seq::<Seq<char>>::empty());
    }
    while i < items.len()
        invariant
            i <= items.len(),
            all == list_chars(items@),
            out@ == joined(all.take(i as int), sep@),
        decreases items.len() - i,
    {
        let ghost before = out@;
        proof {
            assert(all.take(i + 1).drop_last() =~= all.take(i as int));
            assert(all.take(i + 1).last() == items[i as int]@);
            if i == 0 {
                assert(all.take(1)[0] == items[0]@);
            }
        }
        if i > 0 {
            out.append(sep);
        }
        out.append(items[i].as_str());
        proof {
            if i == 0 {
                assert(before + items[0]@ =~= items[0]@);
            }
        }
        i += 1;
    }
    proof {
        assert(all.take(items.len() as int) =~= all);
    }
    out
}

/// An option and its value, where the value is there.
pub open spec fn option_args(name: Seq<char>, value: Option<Seq<char>>) -> Seq<Seq<char>> {
    match value {
        Some(v) => seq![name, v],
        None => Seq::empty(),
    }
}

/// The platforms as one value, where any are configured.
pub open spec fn platforms_value(platforms: Option<Seq<Seq<char>>>) -> Option<Seq<char>> {
    match platforms {
        Some(list) => if list.len() > 0 {
            Some(joined(list, ","@))
        } else {
            None
        },
        None => None,
    }
}

/// The arguments with which `flutter create` is run.
pub open spec fn create_args(
    path: Seq<char>,
    project_name: Seq<char>,
    org: Option<Seq<char>>,
    description: Option<Seq<char>>,
    platforms: Option<Seq<Seq<char>>>,
    android_language: Option<Seq<char>>,
) -> Seq<Seq<char>> {
    seq!["create"@, "--project-name"@, project_name] + option_args(
        "--platforms"@,
        platforms_value(platforms),
    ) + option_args("--android-language"@, android_language) + option_args("--org"@, org)
        + option_args("--description"@, description) + seq![path]
}

fn push_option(args: &mut Vec<String>, name: &str, value: Option<&str>)
    ensures
        list_chars(final(args)@) == list_chars(old(args)@) + option_args(
            name@,
            match value {
                Some(v) => Some(v@),
                None => None,
            },
        ),
{
    let ghost before = list_chars(args@);
    match value {
        Some(v) => {
            args.push(name.to_owned());
            args.push(v.to_owned());
            assert(list_chars(args@) =~= before + seq![name@, v@]);
        },
        None => {
            assert(list_chars(args@) =~= before + Seq::<Seq<char>>::empty());
        },
    }
}

/// The arguments with which `flutter create` is run for the project
/// directory `path`.
pub fn flutter_create_args(
    path: &str,
    project_name: &str,
    org: Option<&str>,
    description: Option<&str>,
    create: &FlutterCreateConfig,
) -> (args: Vec<String>)
    ensures
        list_chars(args@) == create_args(
            path@,
            project_name@,
            match org {
                Some(v) => Some(v@),
                None => None,
            },
            match description {
                Some(v) => Some(v@),
                None => None,
            },
            opt_list_chars(create.platforms),
            opt_chars(create.android_language),
        ),
{
    let mut args: Vec<String> = Vec::new();
    args.push("create".to_owned());
    args.push("--project-name".to_owned());
    args.push(project_name.to_owned());
    proof {
        assert(list_chars(args@) =~= seq!["create"@, "--project-name"@, project_name@]);
    }
    let platforms = match &create.platforms {
        Some(list) => if list.len() > 0 {
            Some(join(list, ","))
        } else {
            None
        },
        None => None,
    };
    match &platforms {
        Some(v) => push_option(&mut args, "--platforms", Some(v.as_str())),
        None => push_option(&mut args, "--platforms", None),
    }
    match &create.android_language {
        Some(v) => push_option(&mut args, "--android-language", Some(v.as_str())),
        None => push_option(&mut args, "--android-language", None),
    }
    push_option(&mut args, "--org", org);
    push_option(&mut args, "--description", description);
    let ghost before = list_chars(args@);
    args.push(path.to_owned());
    proof {
        assert(list_chars(args@) =~= before + seq![path@]);
    }
    args
}

/// How a process that holds a file is named: its name and its id.
pub open spec fn process_entry(pid: u32, name: Seq<char>) -> Seq<char> {
    name + " (PID "@ + decimal(pid as int) + ")"@
}

/// The entries of the processes, in their order.
pub open spec fn process_entries(list: Seq<(u32, String)>) -> Seq<Seq<char>> {
    list.map_values(|p: (u32, String)| process_entry(p.0, p.1@))
}

/// What is said about the processes that hold a file: their entries with
/// `, ` between them; nothing where there is no process.
pub open spec fn locking_info(list: Seq<(u32, String)>) -> Option<Seq<char>> {
    if list.len() == 0 {
        None
    } else {
        Some(joined(process_entries(list), ", "@))
    }
}

/// What is said about the processes that hold a file.
pub fn locking_processes_info(list: &Vec<(u32, String)>) -> (info: Option<String>)
    ensures
        match info {
            Some(text) => locking_info(list@) == Some(text@),
            None => locking_info(list@) is None,
        },
{
    if list.len() == 0 {
        return None;
    }
    let mut entries: Vec<String> = Vec::new();
    let mut i: usize = 0;
    proof {
        assert(list_chars(entries@) =~= process_entries(list@).take(0));
    }
    while i < list.len()
        invariant
            i <= list.len(),
            list_chars(entries@) == process_entries(list@).take(i as int),
        decreases list.len() - i,
    {
        let ghost before = list_chars(entries@);
        let mut entry = list[i].1.clone();
        entry.append(" (PID ");
        let digits = decimal_string(list[i].0 as usize);
        entry.append(digits.as_str());
        entry.append(")");
        entries.push(entry);
        proof {
            assert(list_chars(entries@) =~= before.push(process_entry(list[i as int].0, list[i as int].1@)));
            assert(process_entries(list@).take(i + 1) =~= process_entries(list@).take(i as int).push(
                process_entries(list@)[i as int],
            ));
        }
        i += 1;
    }
    proof {
        assert(process_entries(list@).take(list.len() as int) =~= process_entries(list@));
    }
    Some(join(&entries, ", "))
}

/// A path with `/` in place of every `\`.
pub open spec fn with_forward_slashes(path: Seq<char>) -> Seq<char> {
    path.map_values(|c: char| if c == '\\' {
        '/'
    } else {
        c
    })
}

/// Writes a path with `/` between its parts.
pub fn forward_slashes(path: &str) -> (out: String)
    ensures
        out@ == with_forward_slashes(path@),
{
    let chars = chars_of(path);
    let mut out: Vec<char> = Vec::new();
    let mut i: usize = 0;
    while i < chars.len()
        invariant
            i <= chars.len(),
            chars@ == path@,
            out@ == with_forward_slashes(chars@.take(i as int)),
        decreases chars.len() - i,
    {
        let c = chars[i];
        out.push(if c == '\\' {
            '/'
        } else {
            c
        });
        proof {
            assert(out@ =~= with_forward_slashes(chars@.take(i + 1)));
        }
        i += 1;
    }
    proof {
        assert(chars@.take(chars.len() as int) =~= chars@);
        assert(out@.skip(0) =~= out@);
    }
    string_of(&out, 0)
}

/// Whether a command is given as a path, and not as a name to look up: it
/// holds `/` or `\`.
pub open spec fn is_path(command: Seq<char>) -> bool {
    exists|k: int| 0 <= k < command.len() && (#[trigger] command[k] == '/' || command[k] == '\\')
}

/// Whether a command is given as a path.
pub fn names_a_path(command: &str) -> (r: bool)
    ensures
        r == is_path(command@),
{
    let chars = chars_of(command);
    let mut i: usize = 0;
    while i < chars.len()
        invariant
            i <= chars.len(),
            chars@ == command@,
            forall|k: int| 0 <= k < i ==> !(#[trigger] chars@[k] == '/' || chars@[k] == '\\'),
        decreases chars.len() - i,
    {
        if chars[i] == '/' || chars[i] == '\\' {
            return true;
        }
        i += 1;
    }
    false
}

/// The colours of an image in RGBA bytes, inverted: every red, green and
/// blue byte `b` becomes `255 - b`, every alpha byte stays.
pub open spec fn inverted(pixels: Seq<u8>) -> Seq<u8> {
    Seq::new(
        pixels.len(),
        |i: int| if i % 4 == 3 {
            pixels[i]
        } else {
            (255 - pixels[i]) as u8
        },
    )
}

/// Inverts the colours of an image that is held as RGBA bytes, and leaves
/// its transparency as it is.
pub fn invert_logo_colors(pixels: &mut Vec<u8>)
    ensures
        final(pixels)@ == inverted(old(pixels)@),
{
    let ghost before = pixels@;
    let mut i: usize = 0;
    while i < pixels.len()
        invariant
            i <= pixels.len(),
            pixels.len() == before.len(),
            forall|k: int| 0 <= k < i ==> pixels@[k] == inverted(before)[k],
            forall|k: int| i <= k < pixels.len() ==> pixels@[k] == before[k],
        decreases pixels.len() - i,
    {
        if i % 4 != 3 {
            let b = pixels[i];
            pixels[i] = 255 - b;
        }
        i += 1;
    }
    assert(pixels@ =~= inverted(before));
}

/// What a command line of the runner asks for.
#[derive(Debug)]
pub struct RunArgs {
    /// The file to which the output is logged.
    pub log: Option<String>,
    /// The directory in which the command runs.
    pub cwd: Option<String>,
    /// The command.
    pub command: Option<String>,
    /// The arguments of the command.
    pub args: Vec<String>,
}

/// `RunArgs`, with its strings as characters.
pub struct RunArgsView {
    pub log: Option<Seq<char>>,
    pub cwd: Option<Seq<char>>,
    pub command: Option<Seq<char>>,
    pub args: Seq<Seq<char>>,
}

impl View for RunArgs {
    type V = RunArgsView;

    open spec fn view(&self) -> RunArgsView {
        RunArgsView {
            log: opt_chars(self.log),
            cwd: opt_chars(self.cwd),
            command: opt_chars(self.command),
            args: list_chars(self.args@),
        }
    }
}

/// What the words from place `i` on ask for, added to what the words before
/// them asked for. `--log=FILE` and `--log FILE` name the log file,
/// `--cwd=DIR` and `--cwd DIR` the directory; the first other word is the
/// command, the rest are its arguments. `--log` and `--cwd` as the last
/// word are words like any other.
pub open spec fn run_args_from(words: Seq<Seq<char>>, i: int, so_far: RunArgsView) -> RunArgsView
    decreases words.len() - i,
{
    if i < 0 || i >= words.len() {
        so_far
    } else {
        let word = words[i];
        if "--log="@.is_prefix_of(word) {
            run_args_from(
                words,
                i + 1,
                RunArgsView { log: Some(word.skip("--log="@.len() as int)), ..so_far },
            )
        } else if word == "--log"@ && i + 1 < words.len() {
            run_args_from(words, i + 2, RunArgsView { log: Some(words[i + 1]), ..so_far })
        } else if "--cwd="@.is_prefix_of(word) {
            run_args_from(
                words,
                i + 1,
                RunArgsView { cwd: Some(word.skip("--cwd="@.len() as int)), ..so_far },
            )
        } else if word == "--cwd"@ && i + 1 < words.len() {
            run_args_from(words, i + 2, RunArgsView { cwd: Some(words[i + 1]), ..so_far })
        } else if so_far.command is None {
            run_args_from(words, i + 1, RunArgsView { command: Some(word), ..so_far })
        } else {
            run_args_from(words, i + 1, RunArgsView { args: so_far.args.push(word), ..so_far })
        }
    }
}

/// What a command line asks for. Its first word is the name of the program
/// and is passed over.
pub open spec fn run_args(words: Seq<Seq<char>>) -> RunArgsView {
    run_args_from(
        words,
        1,
        RunArgsView { log: None, cwd: None, command: None, args: Seq::empty() },
    )
}

/// Reads a command line of the runner.
pub fn parse_run_args(words: &Vec<String>) -> (parsed: RunArgs)
    ensures
        parsed@ == run_args(list_chars(words@)),
{
    let ghost all = list_chars(words@);
    let mut parsed = RunArgs { log: None, cwd: None, command: None, args: Vec::new() };
    let mut i: usize = 1;
    proof {
        assert(parsed@.args =~= Seq::<Seq<char>>::empty());
    }
    while i < words.len()
        invariant
            1 <= i,
            all == list_chars(words@),
            run_args_from(all, i as int, parsed@) == run_args(all),
        decreases words.len() - i,
    {
        let word = chars_of(words[i].as_str());
        proof {
            assert(all[i as int] == word@);
        }
        if has_prefix(&word, "--log=") {
            parsed.log = Some(string_of(&word, "--log=".unicode_len()));
            i += 1;
        } else if chars_equal(&word, "--log") && i + 1 < words.len() {
            proof {
                assert(all[i + 1] == words[i + 1]@);
            }
            parsed.log = Some(words[i + 1].clone());
            i += 2;
        } else if has_prefix(&word, "--cwd=") {
            parsed.cwd = Some(string_of(&word, "--cwd=".unicode_len()));
            i += 1;
        } else if chars_equal(&word, "--cwd") && i + 1 < words.len() {
            proof {
                assert(all[i + 1] == words[i + 1]@);
            }
            parsed.cwd = Some(words[i + 1].clone());
            i += 2;
        } else if parsed.command.is_none() {
            parsed.command = Some(words[i].clone());
            i += 1;
        } else {
            let ghost before = parsed@.args;
            parsed.args.push(words[i].clone());
            proof {
                assert(parsed@.args =~= before.push(word@));
            }
            i += 1;
        }
    }
    parsed
}

} // verus!
