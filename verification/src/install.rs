//! How the versions that were found are handed to a package manager.

use crate::registry::Manager;
use vstd::prelude::*;
use vstd::string::*;

verus! {

/// How a package manager is told to take one package at one version.
pub open spec fn install_entry_text(manager: Manager, package: Seq<char>, version: Seq<char>) -> Seq<
    char,
> {
    match manager {
        Manager::Pip => package + "=="@ + version,
        Manager::Npm => package + "@"@ + version,
        Manager::Cargo => package + " = \"="@ + version + "\""@,
        Manager::Gem => "gem '"@ + package + "', '"@ + version + "'"@,
        Manager::Composer => package + ":"@ + version,
    }
}

/// The parts with the separator between each two of them.
pub open spec fn joined(parts: Seq<Seq<char>>, separator: Seq<char>) -> Seq<char>
    decreases parts.len(),
{
    if parts.len() == 0 {
        Seq::empty()
    } else if parts.len() == 1 {
        parts[0]
    } else {
        joined(parts.drop_last(), separator) + separator + parts.last()
    }
}

/// The text between the marks that switch a terminal to bright green and
/// back.
pub open spec fn highlighted(text: Seq<char>) -> Seq<char> {
    "\x1b[92m"@ + text + "\x1b[0m"@
}

/// The lines that tell the user how to install the entries: a heading, an
/// empty line, the command or the lines of a dependency file, and an empty
/// line. Pip, npm and Composer take all entries in one command; Cargo and gem
/// list one entry to a line under a heading that names the file.
pub open spec fn instruction_lines(manager: Manager, entries: Seq<Seq<char>>) -> Seq<Seq<char>> {
    let heading = seq!["Copy and paste into your configuration:"@, Seq::<char>::empty()];
    let listed = entries.map_values(|entry: Seq<char>| highlighted(entry));
    let body = match manager {
        Manager::Pip => seq![highlighted("pip install "@ + joined(entries, " "@))],
        Manager::Npm => seq![highlighted("npm install "@ + joined(entries, " "@))],
        Manager::Cargo => seq![highlighted("# Cargo.toml dependencies:"@)] + listed,
        Manager::Gem => seq![highlighted("# Gemfile:"@)] + listed,
        Manager::Composer => seq![highlighted("composer require "@ + joined(entries, " "@))],
    };
    heading + body + seq![Seq::<char>::empty()]
}

/// How `manager` is told to take `package` at `version`.
pub fn install_entry(manager: Manager, package: &str, version: &str) -> (r: String)
    ensures
        r@ == install_entry_text(manager, package@, version@),
{
    match manager {
        Manager::Pip => {
            let mut text = String::from_str(package);
            text.append("==");
            text.append(version);
            text
        },
        Manager::Npm => {
            let mut text = String::from_str(package);
            text.append("@");
            text.append(version);
            text
        },
        Manager::Cargo => {
            let mut text = String::from_str(package);
            text.append(" = \"=");
            text.append(version);
            text.append("\"");
            text
        },
        Manager::Gem => {
            let mut text = String::from_str("gem '");
            text.append(package);
            text.append("', '");
            text.append(version);
            text.append("'");
            text
        },
        Manager::Composer => {
            let mut text = String::from_str(package);
            text.append(":");
            text.append(version);
            text
        },
    }
}

/// The parts with the separator between each two of them.
pub fn join(parts: &Vec<String>, separator: &str) -> (r: String)
    ensures
        r@ == joined(parts.deep_view(), separator@),
{
    let ghost all = parts.deep_view();
    let mut text = String::new();
    let mut i: usize = 0;
    assert(all.take(0).len() == 0);
    while i < parts.len()
        invariant
            i <= parts.len(),
            all == parts.deep_view(),
            text@ == joined(all.take(i as int), separator@),
        decreases parts.len() - i,
    {
        let ghost next = all.take(i + 1);
        assert(next.drop_last() =~= all.take(i as int));
        assert(next.last() == parts[i as int]@);
        if i > 0 {
            text.append(separator);
        }
        text.append(parts[i].as_str());
        assert(text@ =~= joined(next, separator@));
        i += 1;
    }
    assert(all.take(i as int) =~= all);
    text
}

/// The text between the marks that switch a terminal to bright green and
/// back.
pub fn highlight(text: &str) -> (r: String)
    ensures
        r@ == highlighted(text@),
{
    let mut marked = String::from_str("\x1b[92m");
    marked.append(text);
    marked.append("\x1b[0m");
    marked
}

/// The lines that tell the user how to install the entries.
pub fn install_instructions(manager: Manager, entries: &Vec<String>) -> (r: Vec<String>)
    ensures
        r.deep_view() == instruction_lines(manager, entries.deep_view()),
{
    let ghost all = entries.deep_view();
    let ghost listed = all.map_values(|entry: Seq<char>| highlighted(entry));
    let mut lines: Vec<String> = Vec::new();
    lines.push(String::from_str("Copy and paste into your configuration:"));
    lines.push(String::new());
    let ghost heading = seq!["Copy and paste into your configuration:"@, Seq::<char>::empty()];
    assert(lines.deep_view() =~= heading);
    match manager {
        Manager::Pip | Manager::Npm | Manager::Composer => {
            let mut command = String::from_str(
                match manager {
                    Manager::Pip => "pip install ",
                    Manager::Npm => "npm install ",
                    _ => "composer require ",
                },
            );
            command.append(join(entries, " ").as_str());
            let line = highlight(command.as_str());
            lines.push(line);
            assert(lines.deep_view() =~= heading + seq![line@]);
        },
        Manager::Cargo | Manager::Gem => {
            let title = highlight(
                match manager {
                    Manager::Cargo => "# Cargo.toml dependencies:",
                    _ => "# Gemfile:",
                },
            );
            lines.push(title);
            let mut i: usize = 0;
            assert(lines.deep_view() =~= heading + (seq![title@] + listed.take(0)));
            while i < entries.len()
                invariant
                    i <= entries.len(),
                    all == entries.deep_view(),
                    listed == all.map_values(|entry: Seq<char>| highlighted(entry)),
                    lines.deep_view() == heading + (seq![title@] + listed.take(i as int)),
                decreases entries.len() - i,
            {
                let ghost before = lines.deep_view();
                let line = highlight(entries[i].as_str());
                assert(line@ == listed[i as int]);
                lines.push(line);
                assert(lines.deep_view() =~= before.push(line@));
                assert(listed.take(i + 1) =~= listed.take(i as int).push(listed[i as int]));
                assert(lines.deep_view() =~= heading + (seq![title@] + listed.take(i + 1)));
                i += 1;
            }
            assert(listed.take(i as int) =~= listed);
        },
    }
    let ghost body = lines.deep_view();
    lines.push(String::new());
    assert(lines.deep_view() =~= body + seq![Seq::<char>::empty()]);
    lines
}

} // verus!
