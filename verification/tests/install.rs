use pkgtime::install::{highlight, install_entry, install_instructions, join};
use pkgtime::registry::Manager;

fn texts(items: &[&str]) -> Vec<String> {
    let mut out = Vec::new();
    for item in items {
        out.push(item.to_string());
    }
    out
}

#[test]
fn entries_are_written_as_each_manager_reads_them() {
    assert_eq!(install_entry(Manager::Pip, "requests", "2.22.0"), "requests==2.22.0");
    assert_eq!(install_entry(Manager::Npm, "left-pad", "1.3.0"), "left-pad@1.3.0");
    assert_eq!(install_entry(Manager::Cargo, "serde", "1.0.104"), "serde = \"=1.0.104\"");
    assert_eq!(install_entry(Manager::Gem, "rails", "6.0.2"), "gem 'rails', '6.0.2'");
    assert_eq!(
        install_entry(Manager::Composer, "monolog/monolog", "2.0.2"),
        "monolog/monolog:2.0.2"
    );
    assert_eq!(install_entry(Manager::Pip, "", ""), "==");
}

#[test]
fn parts_are_joined_with_the_separator_between_them() {
    assert_eq!(join(&texts(&[]), " "), "");
    assert_eq!(join(&texts(&["a"]), " "), "a");
    assert_eq!(join(&texts(&["a", "b", "c"]), " "), "a b c");
    assert_eq!(join(&texts(&["a", "", "c"]), ", "), "a, , c");
    assert_eq!(join(&texts(&["", ""]), "-"), "-");
    assert_eq!(join(&texts(&["x", "y"]), ""), "xy");
}

#[test]
fn highlighted_text_stands_between_the_marks() {
    assert_eq!(highlight("go"), "\x1b[92mgo\x1b[0m");
    assert_eq!(highlight(""), "\x1b[92m\x1b[0m");
}

#[test]
fn commands_take_all_entries_at_once() {
    let entries = texts(&["a==1", "b==2"]);
    assert_eq!(
        install_instructions(Manager::Pip, &entries),
        texts(&[
            "Copy and paste into your configuration:",
            "",
            "\x1b[92mpip install a==1 b==2\x1b[0m",
            ""
        ])
    );
    let entries = texts(&["a@1", "b@2", "c@3"]);
    assert_eq!(
        install_instructions(Manager::Npm, &entries),
        texts(&[
            "Copy and paste into your configuration:",
            "",
            "\x1b[92mnpm install a@1 b@2 c@3\x1b[0m",
            ""
        ])
    );
    let entries = texts(&["v/p:1"]);
    assert_eq!(
        install_instructions(Manager::Composer, &entries),
        texts(&[
            "Copy and paste into your configuration:",
            "",
            "\x1b[92mcomposer require v/p:1\x1b[0m",
            ""
        ])
    );
}

#[test]
fn dependency_files_list_one_entry_to_a_line() {
    let entries = texts(&["serde = \"=1.0.104\"", "rand = \"=0.7.3\""]);
    assert_eq!(
        install_instructions(Manager::Cargo, &entries),
        texts(&[
            "Copy and paste into your configuration:",
            "",
            "\x1b[92m# Cargo.toml dependencies:\x1b[0m",
            "\x1b[92mserde = \"=1.0.104\"\x1b[0m",
            "\x1b[92mrand = \"=0.7.3\"\x1b[0m",
            ""
        ])
    );
    let entries = texts(&["gem 'rails', '6.0.2'"]);
    assert_eq!(
        install_instructions(Manager::Gem, &entries),
        texts(&[
            "Copy and paste into your configuration:",
            "",
            "\x1b[92m# Gemfile:\x1b[0m",
            "\x1b[92mgem 'rails', '6.0.2'\x1b[0m",
            ""
        ])
    );
}

#[test]
fn instructions_without_entries_keep_their_frame() {
    assert_eq!(
        install_instructions(Manager::Pip, &Vec::new()),
        texts(&["Copy and paste into your configuration:", "", "\x1b[92mpip install \x1b[0m", ""])
    );
    assert_eq!(
        install_instructions(Manager::Gem, &Vec::new()),
        texts(&["Copy and paste into your configuration:", "", "\x1b[92m# Gemfile:\x1b[0m", ""])
    );
}
