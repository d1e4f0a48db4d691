use co_worker::repl::{read_line, slash_command, ReplInput, SlashCommand};

#[test]
fn blank_lines_are_ignored() {
    assert_eq!(read_line(""), ReplInput::Blank);
    assert_eq!(read_line("  \t \n"), ReplInput::Blank);
}

#[test]
fn messages_are_trimmed() {
    assert_eq!(read_line("  hello there \n"), ReplInput::Message("hello there".to_string()));
    assert_eq!(read_line("a/b"), ReplInput::Message("a/b".to_string()));
}

#[test]
fn slash_commands() {
    assert_eq!(read_line("/exit"), ReplInput::Command(SlashCommand::Quit));
    assert_eq!(read_line("  /QUIT  "), ReplInput::Command(SlashCommand::Quit));
    assert_eq!(read_line("/q"), ReplInput::Command(SlashCommand::Quit));
    assert_eq!(read_line("/help"), ReplInput::Command(SlashCommand::Help));
    assert_eq!(read_line("/?"), ReplInput::Command(SlashCommand::Help));
    assert_eq!(read_line("/ session now"), ReplInput::Command(SlashCommand::SessionInfo));
    assert_eq!(read_line("/info"), ReplInput::Command(SlashCommand::SessionInfo));
    assert_eq!(read_line("/sessions"), ReplInput::Command(SlashCommand::ListSessions));
    assert_eq!(read_line("/Health"), ReplInput::Command(SlashCommand::Health));
    assert_eq!(read_line("/clear"), ReplInput::Command(SlashCommand::Clear));
    assert_eq!(read_line("/"), ReplInput::Command(SlashCommand::Empty));
}

#[test]
fn unknown_commands_are_lower_cased() {
    assert_eq!(read_line("/Foo bar"), ReplInput::Command(SlashCommand::Unknown("foo".to_string())));
    assert_eq!(slash_command("   WHAT\tnow"), SlashCommand::Unknown("what".to_string()));
    assert_eq!(slash_command(""), SlashCommand::Empty);
}
